//! The package runtime's steps: committing outputs, scanning edges, delivering matched
//! content into packages exactly once per delivery key, activating ready packages, starting
//! admitted attempts and committing their results.

use vstd::prelude::*;
use crate::assoc::{assoc_find, assoc_get, assoc_sorted, pairs_view};
use crate::error::{AgentCoreError, AgentCoreResult};
use crate::graph_query::{first_bad_path, filters_outcome, filters_view, paths_view, FiltersOutcome};
use crate::graph_runtime::{
    key_of, keys_of, transfer_key, DeliveryKey, EdgeState, EdgeTransferRecord, GraphRunLedger, GraphRunOutput,
    GraphRunStatus, GraphRuntimeState, MatchedContent, NodeActivation, NodeAttemptRecord, NodeAttemptStatus,
    NodeExecutionContext, NodeInput, NodeOutput, OutputLog, OutputLogEntry, PackageState, RunningCounts, RuntimeEvent,
    concurrency_value, node_count,
};
use crate::graph_spec::{
    package_items, GraphEdge, GraphSpec, GraphSpecV, NodeConcurrency, NodeSpec, OutputRef, PackageItemSpec,
    PackageRef, spec_has_node,
};
use crate::message::RunMessage;
use crate::sys::new_id;
use crate::text::{dup_string, owned, str_eq};

verus! {

/// How many transfers went into a package.
pub open spec fn transfers_into(ts: Seq<EdgeTransferRecord>, node: Seq<char>, package: Seq<char>) -> nat
    decreases ts.len(),
{
    if ts.len() == 0 {
        0
    } else {
        transfers_into(ts.drop_last(), node, package) + if ts.last().to.node@ == node && ts.last().to.package@ == package {
            1nat
        } else {
            0nat
        }
    }
}

/// Whether the edge state of `edge_id` has delivered `key`.
pub open spec fn delivered(edges: Seq<(Seq<char>, EdgeState)>, key: (Seq<char>, Seq<char>, Seq<char>, u128, u64)) -> bool {
    assoc_get(edges, key.0) matches Some(st) && keys_of(st.delivered@).contains(key)
}

/// The delivery laws: every transfer was recorded as delivered by its edge, no delivery key
/// was transferred twice, and each package's version counts the transfers into it.
pub open spec fn delivery_laws(state: GraphRuntimeState, ledger: GraphRunLedger) -> bool {
    let ts = ledger.transfers@;
    &&& forall|i: int| 0 <= i < ts.len() ==> delivered(pairs_view(state.edge_states@), transfer_key(#[trigger] ts[i]))
    &&& forall|i: int, j: int| 0 <= i < j < ts.len() ==> transfer_key(#[trigger] ts[i]) != transfer_key(#[trigger] ts[j])
    &&& forall|p: int| 0 <= p < state.package_states@.len() ==> (#[trigger] state.package_states@[p]).version == transfers_into(
        ts,
        state.package_states@[p].node@,
        state.package_states@[p].package@,
    )
}

/// The runtime's shape: one package state per node in node order, edge states keyed by
/// their ids, sorted item maps, and the delivery laws.
pub open spec fn runtime_wf(g: GraphSpecV, state: GraphRuntimeState, ledger: GraphRunLedger, counts: RunningCounts) -> bool {
    &&& g.wf()
    &&& state_wf(g, state, ledger)
    &&& assoc_sorted(pairs_view(counts.by_node@))
}

/// The state's shape against the graph, and the delivery laws.
pub open spec fn state_wf(g: GraphSpecV, state: GraphRuntimeState, ledger: GraphRunLedger) -> bool {
    &&& crate::graph_spec::spec_nodes_keyed(g.nodes)
    &&& state.package_states@.len() == g.nodes.len()
    &&& forall|p: int| 0 <= p < g.nodes.len() ==> (#[trigger] state.package_states@[p]).node@ == g.nodes[p].0
        && state.package_states@[p].package@ == g.nodes[p].1.input.name@
        && assoc_sorted(pairs_view(state.package_states@[p].items@))
    &&& assoc_sorted(pairs_view(state.edge_states@))
    &&& delivery_laws(state, ledger)
}

/// A started node attempt, handed out to be run.
#[derive(Debug, Clone, PartialEq)]
pub struct StartedAttempt {
    pub node: NodeSpec,
    pub input: NodeInput,
    pub context: NodeExecutionContext,
    pub package_version: u64,
    pub concurrency_key: Option<String>,
}

/// A finished node attempt, handed back to be committed.
#[derive(Debug)]
pub struct RunningResult {
    pub attempt_id: u128,
    pub node_id: String,
    pub package_version: u64,
    pub concurrency_key: Option<String>,
    pub output: AgentCoreResult<NodeOutput>,
}

/// What the driving loop does next.
#[derive(Debug, Clone, PartialEq)]
pub enum RunStep {
    /// End the run with this status and error.
    Finish(GraphRunStatus, Option<String>),
    /// Go on.
    Continue,
}

/// The package runtime of one run.
#[derive(Debug)]
pub struct GraphRuntime {
    graph: GraphSpec,
    state: GraphRuntimeState,
    activations: Vec<NodeActivation>,
    running_counts: RunningCounts,
    ledger: GraphRunLedger,
    run_id: u128,
    running: usize,
}

impl GraphRuntime {
    pub closed spec fn wf(&self) -> bool {
        runtime_wf(self.graph.view(), self.state, self.ledger, self.running_counts)
    }

    pub closed spec fn graph_view(&self) -> GraphSpecV {
        self.graph.view()
    }

    pub closed spec fn state_view(&self) -> GraphRuntimeState {
        self.state
    }

    pub closed spec fn ledger_view(&self) -> GraphRunLedger {
        self.ledger
    }

    pub closed spec fn run_id_view(&self) -> u128 {
        self.run_id
    }

    pub closed spec fn running_view(&self) -> usize {
        self.running
    }

    pub closed spec fn activations_view(&self) -> Seq<NodeActivation> {
        self.activations@
    }

    /// A runtime with an edge state per edge and an empty package per node.
    pub fn new(graph: GraphSpec) -> (r: GraphRuntime)
        requires
            graph.wf(),
        ensures
            r.wf(),
            r.graph_view() == graph.view(),
            r.ledger_view().transfers@.len() == 0,
            r.ledger_view().node_attempts@.len() == 0,
            r.running_view() == 0,
            r.activations_view().len() == 0,
    {
        let ghost g = graph.view();
        let mut edge_states: Vec<(String, EdgeState)> = Vec::new();
        let mut i: usize = 0;
        proof {
            assert(pairs_view(edge_states@) =~= Seq::<(Seq<char>, EdgeState)>::empty());
        }
        let edges = graph.edges();
        while i < edges.len()
            invariant
                i <= edges.len(),
                g == graph.view(),
                assoc_sorted(pairs_view(edge_states@)),
                forall|k: int| 0 <= k < edge_states.len() ==> (#[trigger] edge_states@[k]).1.delivered@.len() == 0,
            decreases edges.len() - i,
        {
            let id = dup_string(&edges[i].id);
            let ghost before = pairs_view(edge_states@);
            let es = EdgeState::new(id.as_str());
            crate::assoc::assoc_set(&mut edge_states, id.as_str(), es);
            proof {
                let after = pairs_view(edge_states@);
                assert forall|k: int| 0 <= k < edge_states.len() implies (#[trigger] edge_states@[k]).1.delivered@.len() == 0 by {
                    crate::assoc::lemma_assoc_get_at(after, k);
                    crate::assoc::lemma_assoc_get_insert(before, id@, es, after[k].0);
                    if after[k].0 != id@ {
                        crate::assoc::lemma_assoc_get_index(before, after[k].0);
                    }
                }
            }
            i += 1;
        }
        let mut package_states: Vec<PackageState> = Vec::new();
        let nodes = graph.nodes();
        let mut i: usize = 0;
        while i < nodes.len()
            invariant
                i <= nodes.len(),
                g == graph.view(),
                pairs_view(nodes@) == g.nodes,
                package_states.len() == i,
                forall|p: int| 0 <= p < i ==> (#[trigger] package_states@[p]).node@ == g.nodes[p].0
                    && package_states@[p].package@ == g.nodes[p].1.input.name@
                    && package_states@[p].items@.len() == 0 && package_states@[p].version == 0,
            decreases nodes.len() - i,
        {
            let ps = PackageState::new(nodes[i].0.as_str(), nodes[i].1.input.name.as_str());
            package_states.push(ps);
            i += 1;
        }
        let rt = GraphRuntime {
            graph,
            state: GraphRuntimeState { output_logs: Vec::new(), edge_states, package_states },
            activations: Vec::new(),
            running_counts: RunningCounts::new(),
            ledger: GraphRunLedger { transfers: Vec::new(), node_attempts: Vec::new(), events: Vec::new() },
            run_id: new_id(),
            running: 0,
        };
        proof {
            assert forall|p: int| 0 <= p < rt.graph.view().nodes.len() implies assoc_sorted(pairs_view((#[trigger] rt.state.package_states@[p]).items@)) by {
                assert(pairs_view(rt.state.package_states@[p].items@).len() == 0);
            }
            assert(pairs_view(rt.running_counts.by_node@).len() == 0);
        }
        rt
    }
}

/// Whether a query selects content from a message without error.
pub open spec fn item_passes(q: crate::graph_query::MessageQuery, m: crate::message::MessageV) -> bool {
    &&& filters_outcome(m, filters_view(q.filters@)) is Pass
    &&& first_bad_path(m, paths_view(q.select.paths@)) is None
}

/// Some item's query selects content from the message.
pub open spec fn any_item_passes(items: Seq<(PackageItemSpec, crate::graph_spec::PackageItemKind)>, m: crate::message::MessageV) -> bool {
    exists|i: int| 0 <= i < items.len() && item_passes((#[trigger] items[i]).0.query, m)
}

fn edge_state_index(es: &Vec<(String, EdgeState)>, id: &str) -> (r: Option<usize>)
    requires
        assoc_sorted(pairs_view(es@)),
    ensures
        match r {
            Some(i) => i < es.len() && es@[i as int].0@ == id@ && assoc_get(pairs_view(es@), id@) == Some(es@[i as int].1)
                && forall|q: int| 0 <= q < i ==> es@[q].0@ != id@,
            None => assoc_get(pairs_view(es@), id@) is None,
        },
{
    let mut i: usize = 0;
    while i < es.len()
        invariant
            i <= es.len(),
            assoc_sorted(pairs_view(es@)),
            forall|q: int| 0 <= q < i ==> es@[q].0@ != id@,
        decreases es.len() - i,
    {
        if str_eq(es[i].0.as_str(), id) {
            proof {
                crate::assoc::lemma_assoc_get_at(pairs_view(es@), i as int);
                assert(pairs_view(es@)[i as int].0 == id@);
            }
            return Some(i);
        }
        i += 1;
    }
    proof {
        crate::assoc::lemma_assoc_get_index(pairs_view(es@), id@);
        assert forall|q: int| 0 <= q < pairs_view(es@).len() implies pairs_view(es@)[q].0 != id@ by {
            assert(pairs_view(es@)[q].0 == es@[q].0@);
        }
    }
    None
}

fn same_key(a: &DeliveryKey, b: &DeliveryKey) -> (r: bool)
    ensures
        r == (key_of(*a) == key_of(*b)),
{
    str_eq(a.edge_id.as_str(), b.edge_id.as_str()) && str_eq(a.package.as_str(), b.package.as_str()) && str_eq(
        a.item.as_str(),
        b.item.as_str(),
    ) && a.message_id == b.message_id && a.selected_hash == b.selected_hash
}

fn key_delivered(es: &EdgeState, key: &DeliveryKey) -> (r: bool)
    ensures
        r == keys_of(es.delivered@).contains(key_of(*key)),
{
    let mut i: usize = 0;
    while i < es.delivered.len()
        invariant
            i <= es.delivered.len(),
            forall|q: int| 0 <= q < i ==> keys_of(es.delivered@)[q] != key_of(*key),
        decreases es.delivered.len() - i,
    {
        if same_key(&es.delivered[i], key) {
            assert(keys_of(es.delivered@)[i as int] == key_of(*key));
            return true;
        }
        i += 1;
    }
    false
}

fn find_package(states: &Vec<PackageState>, node: &str, package: &str) -> (r: Option<usize>)
    ensures
        match r {
            Some(i) => i < states.len() && states@[i as int].node@ == node@ && states@[i as int].package@ == package@,
            None => forall|p: int| 0 <= p < states.len() ==> !(states@[p].node@ == node@ && states@[p].package@ == package@),
        },
{
    let mut i: usize = 0;
    while i < states.len()
        invariant
            i <= states.len(),
            forall|p: int| 0 <= p < i ==> !(states@[p].node@ == node@ && states@[p].package@ == package@),
        decreases states.len() - i,
    {
        if str_eq(states[i].node.as_str(), node) && str_eq(states[i].package.as_str(), package) {
            return Some(i);
        }
        i += 1;
    }
    None
}

proof fn lemma_transfers_into_push(ts: Seq<EdgeTransferRecord>, t: EdgeTransferRecord, node: Seq<char>, package: Seq<char>)
    ensures
        transfers_into(ts.push(t), node, package) == transfers_into(ts, node, package) + if t.to.node@ == node && t.to.package@ == package {
            1nat
        } else {
            0nat
        },
{
    assert(ts.push(t).drop_last() =~= ts);
}

impl GraphRuntime {
    /// Offers one log entry to one edge: for each item of the target package (required
    /// first) whose query selects content from the message, the content is delivered unless
    /// the edge has delivered that key before; a delivery updates the package, records a
    /// transfer and reports the package's new version. Returns whether any item matched.
    pub fn deliver_entry(&mut self, edge: &GraphEdge, entry: &OutputLogEntry) -> (r: AgentCoreResult<bool>)
        requires
            old(self).wf(),
        ensures
            final(self).wf(),
            final(self).graph_view() == old(self).graph_view(),
            final(self).state_view().output_logs == old(self).state_view().output_logs,
            final(self).run_id_view() == old(self).run_id_view(),
            final(self).running_view() == old(self).running_view(),
            final(self).activations_view() == old(self).activations_view(),
            final(self).ledger_view().node_attempts == old(self).ledger_view().node_attempts,
            old(self).ledger_view().events@.is_prefix_of(final(self).ledger_view().events@),
            !spec_has_node(old(self).graph_view().nodes, edge.to.node@) ==> (r matches Err(AgentCoreError::InvalidConfig(t))
                && t@ == "edge target node not found: "@ + edge.to.node@),
            r matches Ok(matched) ==> spec_has_node(old(self).graph_view().nodes, edge.to.node@) && matched == any_item_passes(
                package_items(assoc_get(old(self).graph_view().nodes, edge.to.node@)->0.input),
                entry.message.view(),
            ),
            ({
                let before = old(self).ledger_view().transfers@;
                let after = final(self).ledger_view().transfers@;
                &&& after.len() >= before.len()
                &&& after.subrange(0, before.len() as int) == before
                &&& forall|k: int| before.len() <= k < after.len() ==> {
                    let t = #[trigger] after[k];
                    &&& t.edge_id@ == edge.id@
                    &&& t.from.node@ == edge.from.node@ && t.from.port@ == edge.from.port@
                    &&& t.to.node@ == edge.to.node@ && t.to.package@ == edge.to.package@
                    &&& t.message_id == entry.message.id && t.message_version == entry.message_version
                }
            }),
            r matches Err(e) ==> e is InvalidInput || e is InvalidConfig || e is Fatal,
    {
        let ghost g = self.graph.view();
        let target = match self.graph.node(edge.to.node.as_str()) {
            Some(t) => t,
            None => {
                let mut t = owned("edge target node not found: ");
                t.append(edge.to.node.as_str());
                return Err(AgentCoreError::InvalidConfig(t));
            },
        };
        let ghost before = self.ledger.transfers@;
        let mut matched = false;
        let first = deliver_items(&mut self.state, &mut self.ledger, Ghost(g), edge, entry, &target.input.required, &mut matched);
        if let Err(e) = first {
            return Err(e);
        }
        let ghost mid = self.ledger.transfers@;
        let ghost ev_mid = self.ledger.events@;
        let ghost after_required = matched;
        let second = deliver_items(&mut self.state, &mut self.ledger, Ghost(g), edge, entry, &target.input.optional, &mut matched);
        proof {
            lemma_prefix_trans(old(self).ledger.events@, ev_mid, self.ledger.events@);
        }
        if let Err(e) = second {
            proof {
                let after = self.ledger.transfers@;
                assert(after.subrange(0, before.len() as int) =~= mid.subrange(0, before.len() as int));
                assert forall|k: int| before.len() <= k < mid.len() implies after[k] == mid[k] by {
                    assert(after.subrange(0, mid.len() as int)[k] == after[k]);
                }
            }
            return Err(e);
        }
        proof {
            let items = package_items(target.input);
            let req = target.input.required@;
            let opt = target.input.optional@;
            assert forall|i: int| 0 <= i < req.len() implies items[i].0 == req[i] by {}
            assert forall|i: int| 0 <= i < opt.len() implies items[req.len() + i].0 == opt[i] by {}
            if matched {
                if after_required {
                    let i = choose|i: int| 0 <= i < req.len() && item_passes(req[i].query, entry.message.view());
                    assert(item_passes(items[i].0.query, entry.message.view()));
                } else {
                    let i = choose|i: int| 0 <= i < opt.len() && item_passes(opt[i].query, entry.message.view());
                    assert(item_passes(items[req.len() + i].0.query, entry.message.view()));
                }
            } else {
                assert forall|i: int| 0 <= i < items.len() implies !item_passes((#[trigger] items[i]).0.query, entry.message.view()) by {
                    if i < req.len() {
                        assert(items[i].0 == req[i]);
                    } else {
                        assert(items[i].0 == opt[i - req.len()]);
                    }
                }
            }
            let after = self.ledger.transfers@;
            assert(after.subrange(0, before.len() as int) =~= mid.subrange(0, before.len() as int));
            assert forall|k: int| before.len() <= k < mid.len() implies after[k] == mid[k] by {
                assert(after.subrange(0, mid.len() as int)[k] == after[k]);
            }
        }
        Ok(matched)
    }
}

proof fn lemma_prefix_push<T>(a: Seq<T>, b: Seq<T>, x: T)
    requires
        a.is_prefix_of(b),
    ensures
        a.is_prefix_of(b.push(x)),
{
    assert(b.push(x).subrange(0, a.len() as int) =~= b.subrange(0, a.len() as int));
}

proof fn lemma_prefix_trans<T>(a: Seq<T>, b: Seq<T>, c: Seq<T>)
    requires
        a.is_prefix_of(b),
        b.is_prefix_of(c),
    ensures
        a.is_prefix_of(c),
{
    assert(c.subrange(0, a.len() as int) =~= b.subrange(0, a.len() as int));
}

/// Delivers one entry for each of `items` in order (see [`GraphRuntime::deliver_entry`]).
fn deliver_items(
    state: &mut GraphRuntimeState,
    ledger: &mut GraphRunLedger,
    g: Ghost<GraphSpecV>,
    edge: &GraphEdge,
    entry: &OutputLogEntry,
    items: &Vec<PackageItemSpec>,
    matched: &mut bool,
) -> (r: AgentCoreResult<()>)
    requires
        state_wf(g@, *old(state), *old(ledger)),
    ensures
        state_wf(g@, *final(state), *final(ledger)),
        final(state).output_logs == old(state).output_logs,
        final(ledger).node_attempts == old(ledger).node_attempts,
        old(ledger).events@.is_prefix_of(final(ledger).events@),
        r is Ok ==> *final(matched) == (*old(matched) || exists|i: int| 0 <= i < items.len() && item_passes(items@[i].query, entry.message.view())),
        ({
            let before = old(ledger).transfers@;
            let after = final(ledger).transfers@;
            &&& after.len() >= before.len()
            &&& after.subrange(0, before.len() as int) == before
            &&& forall|k: int| before.len() <= k < after.len() ==> {
                let t = #[trigger] after[k];
                &&& t.edge_id@ == edge.id@
                &&& t.from.node@ == edge.from.node@ && t.from.port@ == edge.from.port@
                &&& t.to.node@ == edge.to.node@ && t.to.package@ == edge.to.package@
                &&& t.message_id == entry.message.id && t.message_version == entry.message_version
            }
        }),
        r matches Err(e) ==> e is InvalidInput || e is InvalidConfig || e is Fatal,
{
    let ghost t0 = ledger.transfers@;
    let ghost e0 = ledger.events@;
    let ghost m0 = *matched;
    let mut i: usize = 0;
    while i < items.len()
        invariant
            i <= items.len(),
            e0 == old(ledger).events@,
            e0.is_prefix_of(ledger.events@),
            state_wf(g@, *state, *ledger),
            state.output_logs == old(state).output_logs,
            ledger.node_attempts == old(ledger).node_attempts,
            *matched == (m0 || exists|k: int| 0 <= k < i && item_passes(items@[k].query, entry.message.view())),
            t0 == old(ledger).transfers@,
            ledger.transfers@.len() >= t0.len(),
            ledger.transfers@.subrange(0, t0.len() as int) == t0,
            forall|k: int| t0.len() <= k < ledger.transfers@.len() ==> {
                let t = #[trigger] ledger.transfers@[k];
                &&& t.edge_id@ == edge.id@
                &&& t.from.node@ == edge.from.node@ && t.from.port@ == edge.from.port@
                &&& t.to.node@ == edge.to.node@ && t.to.package@ == edge.to.package@
                &&& t.message_id == entry.message.id && t.message_version == entry.message_version
            },
        decreases items.len() - i,
    {
        let item = &items[i];
        let selected = match item.query.matches(&entry.message) {
            Err(e) => {
                return Err(e);
            },
            Ok(None) => {
                proof {
                    assert(!item_passes(items@[i as int].query, entry.message.view()));
                }
                i += 1;
                continue;
            },
            Ok(Some(sel)) => sel,
        };
        proof {
            assert(item_passes(items@[i as int].query, entry.message.view()));
        }
        *matched = true;
        let key = DeliveryKey {
            edge_id: dup_string(&edge.id),
            package: dup_string(&edge.to.package),
            item: dup_string(&item.name),
            message_id: entry.message.id,
            selected_hash: selected.hash,
        };
        let ei = match edge_state_index(&state.edge_states, edge.id.as_str()) {
            Some(ei) => ei,
            None => {
                i += 1;
                continue;
            },
        };
        if key_delivered(&state.edge_states[ei].1, &key) {
            i += 1;
            continue;
        }
        let ghost es0 = pairs_view(state.edge_states@);
        let ghost kv = key_of(key);
        let (k, mut es) = state.edge_states.remove(ei);
        es.delivered.push(key);
        let ghost esv = es;
        state.edge_states.insert(ei, (k, es));
        proof {
            let es1 = pairs_view(state.edge_states@);
            assert(es1 =~= es0.update(ei as int, (es0[ei as int].0, esv)));
            assert(keys_of(esv.delivered@) =~= keys_of(es0[ei as int].1.delivered@).push(kv));
            assert forall|other: Seq<char>| #![auto] true implies assoc_get(es1, other) == (if other == edge.id@ {
                Some(esv)
            } else {
                assoc_get(es0, other)
            }) by {
                crate::assoc::lemma_assoc_get_update(es0, ei as int, esv, other);
            }
            assert forall|a: int, b: int| 0 <= a < b < es1.len() implies crate::text::seq_lt(#[trigger] es1[a].0, #[trigger] es1[b].0) by {
                assert(es1[a].0 == es0[a].0);
                assert(es1[b].0 == es0[b].0);
            }
        }
        proof {
            let es1 = pairs_view(state.edge_states@);
            let ts = ledger.transfers@;
            assert forall|j: int| 0 <= j < ts.len() implies delivered(es1, transfer_key(#[trigger] ts[j])) by {
                assert(delivered(es0, transfer_key(ts[j])));
                if transfer_key(ts[j]).0 == edge.id@ {
                    let kk = transfer_key(ts[j]);
                    assert(keys_of(es0[ei as int].1.delivered@).contains(kk));
                    let q = choose|q: int| 0 <= q < keys_of(es0[ei as int].1.delivered@).len() && keys_of(es0[ei as int].1.delivered@)[q] == kk;
                    assert(keys_of(esv.delivered@)[q] == kk);
                }
            }
        }
        let pi = match find_package(&state.package_states, edge.to.node.as_str(), edge.to.package.as_str()) {
            Some(pi) => pi,
            None => {
                let mut t = owned("target package state not found: ");
                t.append(edge.to.node.as_str());
                t.append(".");
                t.append(edge.to.package.as_str());
                return Err(AgentCoreError::InvalidConfig(t));
            },
        };
        if state.package_states[pi].version == u64::MAX {
            return Err(AgentCoreError::Fatal(owned("package version limit reached")));
        }
        let hash = selected.hash;
        let content = MatchedContent {
            source: edge.from.dup(),
            message_id: entry.message.id,
            message_version: entry.message_version,
            selected,
        };
        let ghost ps_before = state.package_states@;
        let mut ps = state.package_states.remove(pi);
        ps.insert(item, content);
        let version = ps.version;
        state.package_states.insert(pi, ps);
        let record = EdgeTransferRecord {
            edge_id: dup_string(&edge.id),
            from: edge.from.dup(),
            to: edge.to.dup(),
            item: dup_string(&item.name),
            message_id: entry.message.id,
            message_version: entry.message_version,
            selected_hash: hash,
        };
        let ghost ts_before = ledger.transfers@;
        let ghost rv = record;
        ledger.transfers.push(record);
        let ghost ev_before = ledger.events@;
        ledger.events.push(RuntimeEvent::PackageUpdated { node: dup_string(&edge.to.node), package: dup_string(&edge.to.package), version });
        proof {
            lemma_prefix_push(e0, ev_before, ledger.events@.last());
        }
        proof {
            let ts = ledger.transfers@;
            let es1 = pairs_view(state.edge_states@);
            let pss = state.package_states@;
            assert(ts == ts_before.push(rv));
            assert(transfer_key(rv) == kv);
            assert(pss =~= ps_before.update(pi as int, pss[pi as int]));
            // every transfer is recorded as delivered
            assert forall|j: int| 0 <= j < ts.len() implies delivered(es1, transfer_key(#[trigger] ts[j])) by {
                if j < ts_before.len() {
                    assert(ts[j] == ts_before[j]);
                } else {
                    assert(keys_of(esv.delivered@)[keys_of(esv.delivered@).len() - 1] == kv);
                }
            }
            // no key twice
            assert forall|a: int, b: int| 0 <= a < b < ts.len() implies transfer_key(#[trigger] ts[a]) != transfer_key(#[trigger] ts[b]) by {
                if b == ts.len() - 1 {
                    assert(ts[a] == ts_before[a]);
                    assert(delivered(es0, transfer_key(ts_before[a])));
                    if transfer_key(ts_before[a]).0 == edge.id@ {
                        assert(keys_of(es0[ei as int].1.delivered@).contains(transfer_key(ts_before[a])));
                    }
                } else {
                    assert(ts[a] == ts_before[a]);
                    assert(ts[b] == ts_before[b]);
                }
            }
            // versions count transfers
            assert forall|q: int| 0 <= q < pss.len() implies (#[trigger] pss[q]).version == crate::graph_engine::transfers_into(
                ts,
                pss[q].node@,
                pss[q].package@,
            ) by {
                lemma_transfers_into_push(ts_before, rv, pss[q].node@, pss[q].package@);
                if q != pi {
                    assert(pss[q] == ps_before[q]);
                    if q < pi {
                        assert(crate::text::seq_lt(g@.nodes[q].0, g@.nodes[pi as int].0));
                    } else {
                        assert(crate::text::seq_lt(g@.nodes[pi as int].0, g@.nodes[q].0));
                    }
                    crate::text::lemma_seq_lt_irrefl(g@.nodes[q].0);
                }
            }
            assert forall|q: int| 0 <= q < g@.nodes.len() implies (#[trigger] pss[q]).node@ == g@.nodes[q].0
                && pss[q].package@ == g@.nodes[q].1.input.name@ && assoc_sorted(pairs_view(pss[q].items@)) by {
                if q != pi {
                    assert(pss[q] == ps_before[q]);
                }
            }
            assert(ts.subrange(0, t0.len() as int) =~= ts_before.subrange(0, t0.len() as int));
        }
        i += 1;
    }
    Ok(())
}

/// Entries of `entries` that carry message `id`.
pub open spec fn entry_id_count(entries: Seq<OutputLogEntry>, id: u128) -> nat
    decreases entries.len(),
{
    if entries.len() == 0 {
        0
    } else {
        entry_id_count(entries.drop_last(), id) + if entries.last().message.id == id { 1nat } else { 0nat }
    }
}

/// Entries over all logs that carry message `id`.
pub open spec fn id_count(logs: Seq<OutputLog>, id: u128) -> nat
    decreases logs.len(),
{
    if logs.len() == 0 {
        0
    } else {
        id_count(logs.drop_last(), id) + entry_id_count(logs.last().entries@, id)
    }
}

/// The order of output logs: by node, then port.
pub open spec fn output_before(a: OutputRef, b: OutputRef) -> bool {
    crate::text::seq_lt(a.node@, b.node@) || (a.node@ == b.node@ && crate::text::seq_lt(a.port@, b.port@))
}

pub open spec fn same_output(a: OutputRef, b: OutputRef) -> bool {
    a.node@ == b.node@ && a.port@ == b.port@
}

/// Whether some log is the output's.
pub open spec fn has_log(logs: Seq<OutputLog>, output: OutputRef) -> bool {
    exists|q: int| 0 <= q < logs.len() && same_output(#[trigger] logs[q].output, output)
}

/// The messages of all logs, log by log.
pub open spec fn log_messages(logs: Seq<OutputLog>) -> Seq<crate::message::MessageV>
    decreases logs.len(),
{
    if logs.len() == 0 {
        Seq::empty()
    } else {
        log_messages(logs.drop_last()) + Seq::new(logs.last().entries@.len(), |i: int| logs.last().entries@[i].message.view())
    }
}

/// The entry written for `message` on `output` with sequence number `seq` and `version`.
pub open spec fn written_entry(e: OutputLogEntry, seq: nat, output: OutputRef, message: RunMessage, version: nat) -> bool {
    &&& e.seq == seq
    &&& e.node@ == output.node@ && e.port@ == output.port@
    &&& e.message_version == version
    &&& e.message.view() == (if message.source_node_id is None {
        crate::message::MessageV { source_node_id: Some(output.node@), ..message.view() }
    } else {
        message.view()
    })
}

/// The version the next write of message `id` gets.
pub open spec fn next_version(logs: Seq<OutputLog>, id: u128) -> nat {
    if id_count(logs, id) + 1 < u64::MAX {
        id_count(logs, id) + 1
    } else {
        u64::MAX as nat
    }
}

impl OutputLogEntry {
    pub fn dup(&self) -> (r: OutputLogEntry)
        ensures
            r.seq == self.seq && r.node@ == self.node@ && r.port@ == self.port@ && r.message.view() == self.message.view()
                && r.message_version == self.message_version,
    {
        OutputLogEntry {
            seq: self.seq,
            node: dup_string(&self.node),
            port: dup_string(&self.port),
            message: self.message.dup(),
            message_version: self.message_version,
        }
    }
}

fn count_id(entries: &Vec<OutputLogEntry>, id: u128) -> (r: u64)
    ensures
        r as nat == if entry_id_count(entries@, id) < u64::MAX { entry_id_count(entries@, id) } else { u64::MAX as nat },
{
    let mut n: u64 = 0;
    let mut i: usize = 0;
    while i < entries.len()
        invariant
            i <= entries.len(),
            n as nat == if entry_id_count(entries@.subrange(0, i as int), id) < u64::MAX {
                entry_id_count(entries@.subrange(0, i as int), id)
            } else {
                u64::MAX as nat
            },
        decreases entries.len() - i,
    {
        proof {
            assert(entries@.subrange(0, i + 1).drop_last() =~= entries@.subrange(0, i as int));
        }
        if entries[i].message.id == id && n < u64::MAX {
            n = n + 1;
        }
        i += 1;
    }
    assert(entries@.subrange(0, i as int) =~= entries@);
    n
}

impl GraphRuntime {
    /// One more than the number of logged entries carrying message `id` (the largest `u64`
    /// when that count does not fit).
    pub fn next_message_version(&self, id: u128) -> (r: u64)
        ensures
            r as nat == if id_count(self.state_view().output_logs@, id) + 1 < u64::MAX {
                id_count(self.state_view().output_logs@, id) + 1
            } else {
                u64::MAX as nat
            },
    {
        let logs = &self.state.output_logs;
        let mut n: u64 = 0;
        let mut i: usize = 0;
        while i < logs.len()
            invariant
                i <= logs.len(),
                n as nat == if id_count(logs@.subrange(0, i as int), id) < u64::MAX {
                    id_count(logs@.subrange(0, i as int), id)
                } else {
                    u64::MAX as nat
                },
            decreases logs.len() - i,
        {
            proof {
                assert(logs@.subrange(0, i + 1).drop_last() =~= logs@.subrange(0, i as int));
            }
            let c = count_id(&logs[i].entries, id);
            n = if n as u128 + c as u128 >= u64::MAX as u128 { u64::MAX } else { n + c };
            i += 1;
        }
        assert(logs@.subrange(0, i as int) =~= logs@);
        if n < u64::MAX { n + 1 } else { u64::MAX }
    }

    /// Writes a message to an output's log: it takes the output's node as its source when it
    /// has none, the next sequence number of the log and the next version of its id. A log
    /// first written is placed in output order.
    #[verifier::spinoff_prover]
    #[verifier::rlimit(40)]
    pub fn commit_output(&mut self, output: &OutputRef, message: RunMessage)
        requires
            old(self).wf(),
        ensures
            final(self).wf(),
            final(self).graph_view() == old(self).graph_view(),
            final(self).ledger_view() == old(self).ledger_view(),
            final(self).state_view().edge_states == old(self).state_view().edge_states,
            final(self).state_view().package_states == old(self).state_view().package_states,
            final(self).activations_view() == old(self).activations_view(),
            final(self).run_id_view() == old(self).run_id_view(),
            final(self).running_view() == old(self).running_view(),
            ({
                let logs = old(self).state_view().output_logs@;
                let now = final(self).state_view().output_logs@;
                let version = next_version(logs, message.id);
                has_log(logs, *output) ==> exists|j: int| 0 <= j < logs.len() && same_output(#[trigger] logs[j].output, *output) && (forall|q: int|
                    0 <= q < j ==> !same_output(logs[q].output, *output)) && now.len() == logs.len() && (forall|q: int|
                    0 <= q < logs.len() && q != j ==> now[q] == logs[q]) && now[j].output == logs[j].output
                    && now[j].entries@.drop_last() == logs[j].entries@ && now[j].entries@.len() == logs[j].entries@.len() + 1
                    && written_entry(now[j].entries@.last(), logs[j].entries@.len() as nat, *output, message, version)
            }),
            ({
                let logs = old(self).state_view().output_logs@;
                let now = final(self).state_view().output_logs@;
                let version = next_version(logs, message.id);
                !has_log(logs, *output) ==> exists|p: int|
                    0 <= p <= logs.len() && (forall|q: int| 0 <= q < p ==> output_before(logs[q].output, *output)) && (p
                    < logs.len() ==> !output_before(logs[p].output, *output)) && now.len() == logs.len() + 1
                    && now.subrange(0, p) == logs.subrange(0, p) && now.subrange(p + 1, now.len() as int) == logs.subrange(
                    p,
                    logs.len() as int,
                ) && same_output(#[trigger] now[p].output, *output) && now[p].entries@.len() == 1 && written_entry(
                    now[p].entries@[0],
                    0,
                    *output,
                    message,
                    version,
                )
            }),
    {
        let ghost original = message;
        let ghost logs0 = old(self).state_view().output_logs@;
        let mut message = message;
        message.set_source_node_id_if_empty(output.node.as_str());
        let version = self.next_message_version(message.id);
        let ghost logs = self.state.output_logs@;
        let mut j: usize = 0;
        while j < self.state.output_logs.len() && !(str_eq(self.state.output_logs[j].output.node.as_str(), output.node.as_str())
            && str_eq(self.state.output_logs[j].output.port.as_str(), output.port.as_str()))
            invariant
                j <= self.state.output_logs.len(),
                logs == self.state.output_logs@,
                forall|q: int| 0 <= q < j ==> !same_output(logs[q].output, *output),
            decreases self.state.output_logs.len() - j,
        {
            j += 1;
        }
        if j < self.state.output_logs.len() {
            let mut log = self.state.output_logs.remove(j);
            let seq = log.entries.len() as u64;
            let ghost old_entries = log.entries@;
            log.entries.push(OutputLogEntry {
                seq,
                node: dup_string(&output.node),
                port: dup_string(&output.port),
                message,
                message_version: version,
            });
            self.state.output_logs.insert(j, log);
            proof {
                let now = self.state_view().output_logs@;
                assert(same_output(logs[j as int].output, *output));
                assert forall|q: int| 0 <= q < logs.len() && q != j implies now[q] == logs[q] by {}
                assert(now[j as int].entries@.drop_last() =~= old_entries);
                assert(old_entries == logs[j as int].entries@);
                assert(now.len() == logs.len());
                assert(now[j as int].output == logs[j as int].output);
                assert(now[j as int].entries@.len() == logs[j as int].entries@.len() + 1);
                assert(written_entry(now[j as int].entries@.last(), logs[j as int].entries@.len() as nat, *output, original, next_version(logs, original.id)));
                let jj = j as int;
                assert(has_log(logs, *output));
                assert(0 <= jj < logs.len() && same_output(logs[jj].output, *output) && (forall|q: int|
                    0 <= q < jj ==> !same_output(logs[q].output, *output)) && now.len() == logs.len() && (forall|q: int|
                    0 <= q < logs.len() && q != jj ==> now[q] == logs[q]) && now[jj].output == logs[jj].output
                    && now[jj].entries@.drop_last() == logs[jj].entries@ && now[jj].entries@.len() == logs[jj].entries@.len() + 1
                    && written_entry(now[jj].entries@.last(), logs[jj].entries@.len() as nat, *output, original, next_version(logs, original.id)));
            }
        } else {
            let mut p: usize = 0;
            while p < self.state.output_logs.len() && (crate::text::str_lt(self.state.output_logs[p].output.node.as_str(), output.node.as_str())
                || (str_eq(self.state.output_logs[p].output.node.as_str(), output.node.as_str()) && crate::text::str_lt(
                self.state.output_logs[p].output.port.as_str(),
                output.port.as_str(),
            )))
                invariant
                    p <= self.state.output_logs.len(),
                    logs == self.state.output_logs@,
                    forall|q: int| 0 <= q < p ==> output_before(logs[q].output, *output),
                decreases self.state.output_logs.len() - p,
            {
                p += 1;
            }
            let mut entries: Vec<OutputLogEntry> = Vec::new();
            entries.push(OutputLogEntry {
                seq: 0,
                node: dup_string(&output.node),
                port: dup_string(&output.port),
                message,
                message_version: version,
            });
            self.state.output_logs.insert(p, OutputLog { output: output.dup(), entries });
            proof {
                let now = self.state_view().output_logs@;
                assert(now.subrange(0, p as int) =~= logs.subrange(0, p as int));
                assert(now.subrange(p + 1, now.len() as int) =~= logs.subrange(p as int, logs.len() as int));
                assert(same_output(now[p as int].output, *output));
                assert(written_entry(now[p as int].entries@[0], 0, *output, original, next_version(logs, original.id)));
                assert(forall|q: int| 0 <= q < logs.len() ==> !same_output(logs[q].output, *output));
                assert(!has_log(logs, *output));
                assert(logs == logs0);
                let pp = p as int;
                if pp < logs.len() {
                    if output_before(logs[pp].output, *output) {
                        assert(crate::text::seq_lt(logs[pp].output.node@, output.node@) || (logs[pp].output.node@ == output.node@
                            && crate::text::seq_lt(logs[pp].output.port@, output.port@)));
                    }
                }
                assert(0 <= pp <= logs.len() && (forall|q: int| 0 <= q < pp ==> output_before(logs[q].output, *output)) && (pp
                    < logs.len() ==> !output_before(logs[pp].output, *output)) && now.len() == logs.len() + 1
                    && now.subrange(0, pp) == logs.subrange(0, pp) && now.subrange(pp + 1, now.len() as int) == logs.subrange(
                    pp,
                    logs.len() as int,
                ) && same_output(now[pp].output, *output) && now[pp].entries@.len() == 1 && written_entry(
                    now[pp].entries@[0],
                    0,
                    *output,
                    original,
                    next_version(logs, original.id),
                ));
                assert(exists|p: int|
                    0 <= p <= logs.len() && (forall|q: int| 0 <= q < p ==> output_before(logs[q].output, *output)) && (p
                    < logs.len() ==> !output_before(logs[p].output, *output)) && now.len() == logs.len() + 1
                    && now.subrange(0, p) == logs.subrange(0, p) && now.subrange(p + 1, now.len() as int) == logs.subrange(
                    p,
                    logs.len() as int,
                ) && same_output(#[trigger] now[p].output, *output) && now[p].entries@.len() == 1 && written_entry(
                    now[p].entries@[0],
                    0,
                    *output,
                    original,
                    next_version(logs, original.id),
                ));
            }
        }
    }

    /// Whether the finish node has completed an attempt.
    pub fn finish_policy_satisfied(&self) -> (r: bool)
        ensures
            r == finish_reached(self.graph_view(), self.ledger_view()),
    {
        match self.graph.finish_node() {
            None => false,
            Some(f) => {
                let attempts = &self.ledger.node_attempts;
                let mut i: usize = 0;
                while i < attempts.len()
                    invariant
                        i <= attempts.len(),
                        attempts@ == self.ledger_view().node_attempts@,
                        self.graph_view().finish_node == Some(f@),
                        forall|k: int| 0 <= k < i ==> !((#[trigger] attempts@[k]).node@ == f@ && attempts@[k].status == NodeAttemptStatus::Completed),
                    decreases attempts.len() - i,
                {
                    if str_eq(attempts[i].node.as_str(), f) && attempts[i].status == NodeAttemptStatus::Completed {
                        assert(self.ledger_view().node_attempts@[i as int].node@ == f@);
                        return true;
                    }
                    i += 1;
                }
                false
            },
        }
    }

    /// Ends the run: every logged message, log by log, with the state and ledger.
    pub fn finish(self, status: GraphRunStatus, error: Option<String>) -> (r: GraphRunOutput)
        ensures
            r.status == status,
            r.error == error,
            r.state == self.state_view(),
            r.ledger == self.ledger_view(),
            crate::message::messages_view(r.messages@) == log_messages(self.state_view().output_logs@),
    {
        let mut messages: Vec<RunMessage> = Vec::new();
        let logs = &self.state.output_logs;
        let mut i: usize = 0;
        while i < logs.len()
            invariant
                i <= logs.len(),
                crate::message::messages_view(messages@) == log_messages(logs@.subrange(0, i as int)),
            decreases logs.len() - i,
        {
            let entries = &logs[i].entries;
            let ghost before = crate::message::messages_view(messages@);
            let mut k: usize = 0;
            while k < entries.len()
                invariant
                    k <= entries.len(),
                    crate::message::messages_view(messages@) == before + Seq::new(k as nat, |q: int| entries@[q].message.view()),
                decreases entries.len() - k,
            {
                let ghost prev = messages@;
                let m = entries[k].message.dup();
                messages.push(m);
                proof {
                    assert(messages@ == prev.push(m));
                    assert(crate::message::messages_view(messages@) =~= crate::message::messages_view(prev).push(m.view()));
                    assert(Seq::new((k + 1) as nat, |q: int| entries@[q].message.view()) =~= Seq::new(k as nat, |q: int| entries@[q].message.view()).push(entries@[k as int].message.view()));
                    assert(crate::message::messages_view(messages@) =~= before + Seq::new((k + 1) as nat, |q: int| entries@[q].message.view()));
                }
                k += 1;
            }
            proof {
                assert(logs@.subrange(0, i + 1).drop_last() =~= logs@.subrange(0, i as int));
                assert(crate::message::messages_view(messages@) =~= log_messages(logs@.subrange(0, i + 1)));
            }
            i += 1;
        }
        assert(logs@.subrange(0, i as int) =~= logs@);
        GraphRunOutput { status, messages, state: self.state, ledger: self.ledger, error }
    }
}

proof fn lemma_delivered_same(es0: Seq<(Seq<char>, EdgeState)>, es1: Seq<(Seq<char>, EdgeState)>, k: (Seq<char>, Seq<char>, Seq<char>, u128, u64))
    requires
        es0.len() == es1.len(),
        forall|q: int| 0 <= q < es0.len() ==> (#[trigger] es0[q]).0 == es1[q].0 && es0[q].1.delivered@ == es1[q].1.delivered@,
    ensures
        delivered(es0, k) == delivered(es1, k),
    decreases es0.len(),
{
    if es0.len() > 0 {
        assert(es0[0].0 == es1[0].0);
        if es0[0].0 != k.0 {
            assert forall|q: int| 0 <= q < es0.drop_first().len() implies (#[trigger] es0.drop_first()[q]).0 == es1.drop_first()[q].0
                && es0.drop_first()[q].1.delivered@ == es1.drop_first()[q].1.delivered@ by {
                assert(es0.drop_first()[q] == es0[q + 1]);
                assert(es1.drop_first()[q] == es1[q + 1]);
            }
            lemma_delivered_same(es0.drop_first(), es1.drop_first(), k);
        }
    }
}

/// Moves an edge's cursor.
fn set_next_seq(states: &mut Vec<(String, EdgeState)>, ei: usize, next: u64)
    requires
        ei < old(states).len(),
    ensures
        final(states).len() == old(states).len(),
        forall|q: int| 0 <= q < old(states).len() ==> (#[trigger] final(states)@[q]).0 == old(states)@[q].0
            && final(states)@[q].1.delivered == old(states)@[q].1.delivered,
        final(states)@[ei as int].1.next_seq == next,
{
    let (k, mut es) = states.remove(ei);
    es.next_seq = next;
    states.insert(ei, (k, es));
}

/// `b` is a copy of the log entry `a`.
pub open spec fn entry_copy(b: OutputLogEntry, a: OutputLogEntry) -> bool {
    b.seq == a.seq && b.node@ == a.node@ && b.port@ == a.port@ && b.message.view() == a.message.view()
        && b.message_version == a.message_version
}

/// The log is the one of the output `node`/`port`.
pub open spec fn log_for(l: OutputLog, node: Seq<char>, port: Seq<char>) -> bool {
    l.output.node@ == node && l.output.port@ == port
}

/// The position of the first log of the output `node`/`port`, if there is one.
pub open spec fn first_log(logs: Seq<OutputLog>, node: Seq<char>, port: Seq<char>) -> Option<int>
    decreases logs.len(),
{
    if logs.len() == 0 {
        None
    } else {
        match first_log(logs.drop_last(), node, port) {
            Some(j) => Some(j),
            None => if log_for(logs.last(), node, port) { Some(logs.len() - 1) } else { None },
        }
    }
}

proof fn lemma_first_log(logs: Seq<OutputLog>, node: Seq<char>, port: Seq<char>, j: int)
    requires
        0 <= j < logs.len(),
        log_for(logs[j], node, port),
        forall|m: int| 0 <= m < j ==> !log_for(#[trigger] logs[m], node, port),
    ensures
        first_log(logs, node, port) == Some(j),
    decreases logs.len(),
{
    if j < logs.len() - 1 {
        lemma_first_log(logs.drop_last(), node, port, j);
    } else {
        lemma_first_log_none(logs.drop_last(), node, port);
    }
}

proof fn lemma_first_log_none(logs: Seq<OutputLog>, node: Seq<char>, port: Seq<char>)
    requires
        forall|m: int| 0 <= m < logs.len() ==> !log_for(#[trigger] logs[m], node, port),
    ensures
        first_log(logs, node, port) is None,
    decreases logs.len(),
{
    if logs.len() > 0 {
        lemma_first_log_none(logs.drop_last(), node, port);
    }
}

impl GraphRuntime {
    /// The entries of the output's log (empty when it has none), copied.
    fn entries_of(&self, output: &OutputRef) -> (r: Vec<OutputLogEntry>)
        ensures
            ({
                let logs = self.state.output_logs@;
                match first_log(logs, output.node@, output.port@) {
                    Some(j) => r@.len() == logs[j].entries@.len()
                        && forall|k: int| 0 <= k < r@.len() ==> entry_copy(#[trigger] r@[k], logs[j].entries@[k]),
                    None => r@.len() == 0,
                }
            }),
    {
        let logs = &self.state.output_logs;
        let mut j: usize = 0;
        while j < logs.len()
            invariant
                j <= logs.len(),
                logs@ == self.state.output_logs@,
                forall|m: int| 0 <= m < j ==> !log_for(#[trigger] logs@[m], output.node@, output.port@),
            decreases logs.len() - j,
        {
            if str_eq(logs[j].output.node.as_str(), output.node.as_str()) && str_eq(logs[j].output.port.as_str(), output.port.as_str()) {
                let entries = &logs[j].entries;
                let mut out: Vec<OutputLogEntry> = Vec::new();
                let mut k: usize = 0;
                while k < entries.len()
                    invariant
                        k <= entries.len(),
                        out@.len() == k,
                        forall|q: int| 0 <= q < k ==> entry_copy(#[trigger] out@[q], entries@[q]),
                    decreases entries.len() - k,
                {
                    out.push(entries[k].dup());
                    k += 1;
                }
                proof {
                    lemma_first_log(logs@, output.node@, output.port@, j as int);
                    assert(entries@ == logs@[j as int].entries@);
                    assert forall|k: int| 0 <= k < out@.len() implies entry_copy(#[trigger] out@[k], logs@[j as int].entries@[k]) by {
                        assert(entry_copy(out@[k], entries@[k]));
                    }
                }
                return out;
            }
            j += 1;
        }
        proof {
            lemma_first_log_none(logs@, output.node@, output.port@);
        }
        Vec::new()
    }

    /// Offers every edge the entries of its source log from its cursor on, moving the cursor
    /// past each; an entry no item matched is reported as filtered.
    pub fn scan_edges(&mut self) -> (r: AgentCoreResult<()>)
        requires
            old(self).wf(),
        ensures
            final(self).wf(),
            final(self).graph_view() == old(self).graph_view(),
            final(self).state_view().output_logs == old(self).state_view().output_logs,
            final(self).run_id_view() == old(self).run_id_view(),
            final(self).running_view() == old(self).running_view(),
            final(self).activations_view() == old(self).activations_view(),
            final(self).ledger_view().node_attempts == old(self).ledger_view().node_attempts,
            old(self).ledger_view().transfers@.len() <= final(self).ledger_view().transfers@.len(),
            final(self).ledger_view().transfers@.subrange(0, old(self).ledger_view().transfers@.len() as int)
                == old(self).ledger_view().transfers@,
            r matches Err(e) ==> e is InvalidInput || e is InvalidConfig || e is Fatal,
            old(self).ledger_view().events@.is_prefix_of(final(self).ledger_view().events@),
            r is Ok ==> forall|i: int| 0 <= i < old(self).graph_view().edges.len() ==> scanned(
                final(self).ledger_view().events@,
                old(self).ledger_view().events@.len() as int,
                (#[trigger] old(self).graph_view().edges[i]).id@,
            ),
            forall|k: int| old(self).ledger_view().transfers@.len() <= k < final(self).ledger_view().transfers@.len()
                ==> transfer_on_edge(#[trigger] final(self).ledger_view().transfers@[k], old(self).graph_view().edges),
    {
        let ghost t0 = self.ledger.transfers@;
        let ghost e0 = self.ledger.events@;
        let n = self.graph.edges().len();
        let mut i: usize = 0;
        while i < n
            invariant
                self.wf(),
                n == self.graph_view().edges.len(),
                self.graph_view() == old(self).graph_view(),
                self.state_view().output_logs == old(self).state_view().output_logs,
                self.run_id_view() == old(self).run_id_view(),
                self.running_view() == old(self).running_view(),
                self.activations_view() == old(self).activations_view(),
                self.ledger_view().node_attempts == old(self).ledger_view().node_attempts,
                t0 == old(self).ledger_view().transfers@,
                t0.len() <= self.ledger_view().transfers@.len(),
                self.ledger_view().transfers@.subrange(0, t0.len() as int) == t0,
                e0 == old(self).ledger_view().events@,
                e0.is_prefix_of(self.ledger_view().events@),
                forall|k: int| t0.len() <= k < self.ledger_view().transfers@.len()
                    ==> transfer_on_edge(#[trigger] self.ledger_view().transfers@[k], self.graph_view().edges),
                forall|q: int| 0 <= q < i ==> scanned(self.ledger_view().events@, e0.len() as int, (#[trigger] self.graph_view().edges[q]).id@),
            decreases n - i,
        {
            let edge = self.graph.edges()[i].dup();
            assert(edge_is(edge, self.graph_view().edges[i as int]));
            let ghost ev_start = self.ledger.events@;
            let from_seq = match edge_state_index(&self.state.edge_states, edge.id.as_str()) {
                Some(ei) => self.state.edge_states[ei].1.next_seq,
                None => 0,
            };
            self.ledger.events.push(RuntimeEvent::EdgeScanned { edge_id: dup_string(&edge.id), from_seq });
            let ghost ev_scan = self.ledger.events@;
            proof {
                lemma_prefix_push(e0, ev_start, ev_scan.last());
                assert(ev_scan[ev_scan.len() - 1] == ev_scan.last());
                assert(scanned(ev_scan, e0.len() as int, self.graph_view().edges[i as int].id@));
                assert forall|q: int| 0 <= q < i implies scanned(ev_scan, e0.len() as int, (#[trigger] self.graph_view().edges[q]).id@) by {
                    lemma_scanned_grows(ev_start, ev_scan, e0.len() as int, self.graph_view().edges[q].id@);
                }
            }
            let entries = self.entries_of(&edge.from);
            let mut k: usize = 0;
            while k < entries.len()
                invariant
                    k <= entries.len(),
                    self.wf(),
                    self.graph_view() == old(self).graph_view(),
                    self.state_view().output_logs == old(self).state_view().output_logs,
                    self.run_id_view() == old(self).run_id_view(),
                    self.running_view() == old(self).running_view(),
                    self.activations_view() == old(self).activations_view(),
                    self.ledger_view().node_attempts == old(self).ledger_view().node_attempts,
                    t0 == old(self).ledger_view().transfers@,
                    t0.len() <= self.ledger_view().transfers@.len(),
                    self.ledger_view().transfers@.subrange(0, t0.len() as int) == t0,
                    e0 == old(self).ledger_view().events@,
                    e0.is_prefix_of(self.ledger_view().events@),
                    forall|k: int| t0.len() <= k < self.ledger_view().transfers@.len()
                        ==> transfer_on_edge(#[trigger] self.ledger_view().transfers@[k], self.graph_view().edges),
                    i < n,
                    n == self.graph_view().edges.len(),
                    edge_is(edge, self.graph_view().edges[i as int]),
                    forall|q: int| 0 <= q <= i ==> scanned(self.ledger_view().events@, e0.len() as int, (#[trigger] self.graph_view().edges[q]).id@),
                decreases entries.len() - k,
            {
                if entries[k].seq >= from_seq {
                    let ghost before = self.ledger.transfers@;
                    let ghost ev_before = self.ledger.events@;
                    let ghost edges = self.graph_view().edges;
                    let matched = match self.deliver_entry(&edge, &entries[k]) {
                        Ok(m) => m,
                        Err(e) => {
                            proof {
                                let after = self.ledger.transfers@;
                                assert(after.subrange(0, t0.len() as int) =~= before.subrange(0, t0.len() as int));
                                lemma_after_delivery(t0, before, after, e0, ev_before, self.ledger.events@, edge, edges, i as int);
                            }
                            return Err(e);
                        },
                    };
                    proof {
                        let after = self.ledger.transfers@;
                        assert(after.subrange(0, t0.len() as int) =~= before.subrange(0, t0.len() as int));
                        lemma_after_delivery(t0, before, after, e0, ev_before, self.ledger.events@, edge, edges, i as int);
                    }
                    if !matched {
                        let ghost ev_b = self.ledger.events@;
                        self.ledger.events.push(RuntimeEvent::MessageFiltered { edge_id: dup_string(&edge.id), seq: entries[k].seq });
                        proof {
                            lemma_prefix_push(e0, ev_b, self.ledger.events@.last());
                            assert forall|q: int| 0 <= q <= i implies scanned(self.ledger.events@, e0.len() as int, (#[trigger] edges[q]).id@) by {
                                lemma_prefix_push(ev_b, ev_b, self.ledger.events@.last());
                                lemma_scanned_grows(ev_b, self.ledger.events@, e0.len() as int, edges[q].id@);
                            }
                        }
                    }
                    match edge_state_index(&self.state.edge_states, edge.id.as_str()) {
                        Some(ei) => {
                            let next = if entries[k].seq < u64::MAX { entries[k].seq + 1 } else { u64::MAX };
                            let ghost es0 = pairs_view(self.state.edge_states@);
                            set_next_seq(&mut self.state.edge_states, ei, next);
                            proof {
                                let es1 = pairs_view(self.state.edge_states@);
                                assert forall|a: int, b: int| 0 <= a < b < es1.len() implies crate::text::seq_lt(#[trigger] es1[a].0, #[trigger] es1[b].0) by {
                                    assert(es1[a].0 == es0[a].0);
                                    assert(es1[b].0 == es0[b].0);
                                }
                                let ts = self.ledger.transfers@;
                                assert forall|q: int| 0 <= q < ts.len() implies delivered(es1, transfer_key(#[trigger] ts[q])) by {
                                    lemma_delivered_same(es0, es1, transfer_key(ts[q]));
                                }
                            }
                        },
                        None => {},
                    }
                }
                k += 1;
            }
            i += 1;
        }
        Ok(())
    }
}

/// The events from position `from` on include a scan of the edge `id`.
pub open spec fn scanned(ev: Seq<RuntimeEvent>, from: int, id: Seq<char>) -> bool {
    exists|k: int| from <= k < ev.len() && (#[trigger] ev[k] matches RuntimeEvent::EdgeScanned { edge_id, .. } && edge_id@ == id)
}

/// The transfer went over one of the edges, between its ends.
pub open spec fn transfer_on_edge(t: EdgeTransferRecord, edges: Seq<GraphEdge>) -> bool {
    exists|i: int| 0 <= i < edges.len() && #[trigger] edge_is_transfer(t, edges[i])
}

pub open spec fn edge_is_transfer(t: EdgeTransferRecord, e: GraphEdge) -> bool {
    t.edge_id@ == e.id@ && t.from.node@ == e.from.node@ && t.from.port@ == e.from.port@
        && t.to.node@ == e.to.node@ && t.to.package@ == e.to.package@
}

/// `a` is a copy of the edge `b`.
pub open spec fn edge_is(a: GraphEdge, b: GraphEdge) -> bool {
    a.id@ == b.id@ && a.from.node@ == b.from.node@ && a.from.port@ == b.from.port@
        && a.to.node@ == b.to.node@ && a.to.package@ == b.to.package@
}

proof fn lemma_scanned_grows(a: Seq<RuntimeEvent>, b: Seq<RuntimeEvent>, from: int, id: Seq<char>)
    requires
        0 <= from,
        a.is_prefix_of(b),
        scanned(a, from, id),
    ensures
        scanned(b, from, id),
{
    let k = choose|k: int| from <= k < a.len() && (#[trigger] a[k] matches RuntimeEvent::EdgeScanned { edge_id, .. } && edge_id@ == id);
    assert(b.subrange(0, a.len() as int)[k] == b[k]);
    assert(b[k] == a[k]);
}

/// What a delivery over the `i`-th edge keeps of the scan: the transfers and events so far
/// stay, new transfers are on that edge, and every edge scanned so far stays scanned.
proof fn lemma_after_delivery(
    t0: Seq<EdgeTransferRecord>,
    before: Seq<EdgeTransferRecord>,
    after: Seq<EdgeTransferRecord>,
    e0: Seq<RuntimeEvent>,
    ev_before: Seq<RuntimeEvent>,
    ev_after: Seq<RuntimeEvent>,
    edge: GraphEdge,
    edges: Seq<GraphEdge>,
    i: int,
)
    requires
        0 <= i < edges.len(),
        edge_is(edge, edges[i]),
        t0.len() <= before.len(),
        forall|k: int| t0.len() <= k < before.len() ==> transfer_on_edge(#[trigger] before[k], edges),
        after.len() >= before.len(),
        after.subrange(0, before.len() as int) == before,
        forall|k: int| before.len() <= k < after.len() ==> {
            let t = #[trigger] after[k];
            &&& t.edge_id@ == edge.id@
            &&& t.from.node@ == edge.from.node@ && t.from.port@ == edge.from.port@
            &&& t.to.node@ == edge.to.node@ && t.to.package@ == edge.to.package@
        },
        e0.is_prefix_of(ev_before),
        ev_before.is_prefix_of(ev_after),
        forall|q: int| 0 <= q <= i ==> scanned(ev_before, e0.len() as int, (#[trigger] edges[q]).id@),
    ensures
        forall|k: int| t0.len() <= k < after.len() ==> transfer_on_edge(#[trigger] after[k], edges),
        e0.is_prefix_of(ev_after),
        forall|q: int| 0 <= q <= i ==> scanned(ev_after, e0.len() as int, (#[trigger] edges[q]).id@),
{
    lemma_prefix_trans(e0, ev_before, ev_after);
    assert forall|q: int| 0 <= q <= i implies scanned(ev_after, e0.len() as int, (#[trigger] edges[q]).id@) by {
        lemma_scanned_grows(ev_before, ev_after, e0.len() as int, edges[q].id@);
    }
    assert forall|k: int| t0.len() <= k < after.len() implies transfer_on_edge(#[trigger] after[k], edges) by {
        if k < before.len() {
            assert(after.subrange(0, before.len() as int)[k] == after[k]);
            assert(after[k] == before[k]);
        } else {
            assert(edge_is_transfer(after[k], edges[i]));
        }
    }
}

/// An activation made from one of the packages, at a version not activated before.
pub open spec fn activation_from(a: NodeActivation, pss: Seq<PackageState>) -> bool {
    exists|q: int| #![trigger pss[q]] 0 <= q < pss.len() && a.node@ == pss[q].node@ && a.package@ == pss[q].package@
        && a.package_version == pss[q].version && pss[q].last_activated_version != Some(pss[q].version)
}

/// The finish node has completed an attempt.
pub open spec fn finish_reached(g: GraphSpecV, ledger: GraphRunLedger) -> bool {
    g.finish_node matches Some(f) && exists|i: int| 0 <= i < ledger.node_attempts@.len()
        && (#[trigger] ledger.node_attempts@[i]).node@ == f && ledger.node_attempts@[i].status == NodeAttemptStatus::Completed
}

/// Sets a package's activated version.
fn mark_activated(states: &mut Vec<PackageState>, p: usize, version: u64)
    requires
        p < old(states).len(),
    ensures
        final(states).len() == old(states).len(),
        forall|q: int| 0 <= q < old(states).len() && q != p ==> final(states)@[q] == old(states)@[q],
        final(states)@[p as int] == (PackageState { last_activated_version: Some(version), ..old(states)@[p as int] }),
{
    let mut ps = states.remove(p);
    ps.last_activated_version = Some(version);
    states.insert(p, ps);
}

impl GraphRuntime {
    /// Queues an activation for every ready package whose current version has not been
    /// activated, in node order, and marks that version activated.
    pub fn enqueue_ready_activations(&mut self) -> (r: AgentCoreResult<()>)
        requires
            old(self).wf(),
        ensures
            final(self).wf(),
            final(self).graph_view() == old(self).graph_view(),
            final(self).ledger_view().transfers == old(self).ledger_view().transfers,
            final(self).ledger_view().node_attempts == old(self).ledger_view().node_attempts,
            final(self).state_view().output_logs == old(self).state_view().output_logs,
            final(self).state_view().edge_states == old(self).state_view().edge_states,
            final(self).run_id_view() == old(self).run_id_view(),
            final(self).running_view() == old(self).running_view(),
            r is Ok,
            ({
                let g = old(self).graph_view();
                let before = old(self).state_view().package_states@;
                let after = final(self).state_view().package_states@;
                &&& after.len() == before.len()
                &&& forall|p: int| 0 <= p < before.len() ==> {
                    let ps = #[trigger] before[p];
                    let fired = crate::graph_runtime::package_ready(pairs_view(ps.items@), g.nodes[p].1.input)
                        && ps.last_activated_version != Some(ps.version);
                    after[p] == (if fired { PackageState { last_activated_version: Some(ps.version), ..ps } } else { ps })
                }
            }),
            ({
                let before = old(self).activations_view();
                let after = final(self).activations_view();
                let pss = old(self).state_view().package_states@;
                &&& after.len() >= before.len()
                &&& after.subrange(0, before.len() as int) == before
                &&& forall|k: int| before.len() <= k < after.len() ==> activation_from(#[trigger] after[k], pss)
            }),
    {
        let ghost g = self.graph.view();
        let ghost before = self.state.package_states@;
        let ghost acts0 = self.activations@;
        let mut p: usize = 0;
        while p < self.state.package_states.len()
            invariant
                self.wf(),
                g == self.graph_view(),
                self.graph_view() == old(self).graph_view(),
                self.ledger_view().transfers == old(self).ledger_view().transfers,
                self.ledger_view().node_attempts == old(self).ledger_view().node_attempts,
                self.state_view().output_logs == old(self).state_view().output_logs,
                self.state_view().edge_states == old(self).state_view().edge_states,
                self.run_id_view() == old(self).run_id_view(),
                self.running_view() == old(self).running_view(),
                before == old(self).state_view().package_states@,
                acts0 == old(self).activations_view(),
                p <= self.state.package_states.len(),
                self.state.package_states.len() == before.len(),
                forall|q: int| p <= q < before.len() ==> self.state.package_states@[q] == before[q],
                forall|q: int| 0 <= q < p ==> {
                    let ps = #[trigger] before[q];
                    let fired = crate::graph_runtime::package_ready(pairs_view(ps.items@), g.nodes[q].1.input)
                        && ps.last_activated_version != Some(ps.version);
                    self.state.package_states@[q] == (if fired { PackageState { last_activated_version: Some(ps.version), ..ps } } else { ps })
                },
                self.activations@.len() >= acts0.len(),
                self.activations@.subrange(0, acts0.len() as int) == acts0,
                forall|k: int| acts0.len() <= k < self.activations_view().len() ==> activation_from(#[trigger] self.activations_view()[k], before),
            decreases self.state.package_states.len() - p,
        {
            let ghost acts_start = self.activations_view();
            let nodes = self.graph.nodes();
            proof {
                assert(pairs_view(nodes@)[p as int] == g.nodes[p as int]);
            }
            let node = &nodes[p].1;
            let ps = &self.state.package_states[p];
            let ready = ps.is_ready(&node.input);
            if ready && !(match ps.last_activated_version {
                Some(v) => v == ps.version,
                None => false,
            }) {
                let input = NodeInput::from_package(&node.input, ps);
                let version = ps.version;
                let activation = NodeActivation {
                    id: new_id(),
                    node: dup_string(&ps.node),
                    package: dup_string(&ps.package),
                    package_version: version,
                    input,
                };
                let node_name = dup_string(&ps.node);
                let ghost pss0 = self.state.package_states@;
                mark_activated(&mut self.state.package_states, p, version);
                self.ledger.events.push(RuntimeEvent::NodeActivated { node: node_name, package_version: version });
                let ghost acts_before = self.activations_view();
                assert(acts_before == acts_start);
                self.activations.push(activation);
                proof {
                    let pss = self.state.package_states@;
                    assert forall|q: int| 0 <= q < g.nodes.len() implies (#[trigger] pss[q]).node@ == g.nodes[q].0
                        && pss[q].package@ == g.nodes[q].1.input.name@ && assoc_sorted(pairs_view(pss[q].items@)) by {
                        if q != p {
                            assert(pss[q] == pss0[q]);
                        }
                    }
                    let ts = self.ledger.transfers@;
                    assert forall|q: int| 0 <= q < pss.len() implies (#[trigger] pss[q]).version == transfers_into(ts, pss[q].node@, pss[q].package@) by {
                        if q != p {
                            assert(pss[q] == pss0[q]);
                        }
                    }
                    let acts = self.activations_view();
                    assert(acts.subrange(0, acts0.len() as int) =~= acts_before.subrange(0, acts0.len() as int));
                    assert forall|k: int| acts0.len() <= k < acts.len() implies activation_from(#[trigger] acts[k], before) by {
                        if k == acts.len() - 1 {
                            assert(before[p as int] == pss0[p as int]);
                            let pp = p as int;
                            assert(0 <= pp < before.len());
                            assert(acts[k].node@ == before[pp].node@);
                            assert(acts[k].package@ == before[pp].package@);
                            assert(acts[k].package_version == before[pp].version);
                            assert(before[pp].last_activated_version != Some(before[pp].version));
                            assert(activation_from(acts[k], before));
                        } else {
                            assert(acts[k] == acts_start[k]);
                            assert(activation_from(acts_start[k], before));
                        }
                    }
                }
            }
            p += 1;
        }
        Ok(())
    }

    /// Starts every queued activation its node's concurrency admits, in queue order; the
    /// others stay queued. Returns the started attempts.
    pub fn spawn_ready_activations(&mut self) -> (r: AgentCoreResult<Vec<StartedAttempt>>)
        requires
            old(self).wf(),
        ensures
            final(self).wf(),
            final(self).graph_view() == old(self).graph_view(),
            final(self).state_view() == old(self).state_view(),
            final(self).ledger_view().transfers == old(self).ledger_view().transfers,
            final(self).ledger_view().node_attempts == old(self).ledger_view().node_attempts,
            final(self).run_id_view() == old(self).run_id_view(),
            r matches Ok(started) ==> final(self).running_view() == old(self).running_view() + started@.len()
                && final(self).activations_view().len() + started@.len() == old(self).activations_view().len(),
            r matches Err(e) ==> e is InvalidConfig || e is Fatal,
    {
        let mut pending: Vec<NodeActivation> = Vec::new();
        std::mem::swap(&mut pending, &mut self.activations);
        let ghost total = pending@.len();
        let mut remaining: Vec<NodeActivation> = Vec::new();
        let mut started: Vec<StartedAttempt> = Vec::new();
        let ghost running0 = self.running;
        while pending.len() > 0
            invariant
                self.wf(),
                self.graph_view() == old(self).graph_view(),
                self.state_view() == old(self).state_view(),
                self.ledger_view().transfers == old(self).ledger_view().transfers,
                self.ledger_view().node_attempts == old(self).ledger_view().node_attempts,
                self.run_id_view() == old(self).run_id_view(),
                self.activations@.len() == 0,
                total == old(self).activations_view().len(),
                running0 == old(self).running_view(),
                pending.len() + remaining.len() + started.len() == total,
                self.running == running0 + started.len(),
            decreases pending.len(),
        {
            let activation = pending.remove(0);
            let node = match self.graph.node(activation.node.as_str()) {
                Some(n) => n,
                None => {
                    let mut t = owned("node not found: ");
                    t.append(activation.node.as_str());
                    return Err(AgentCoreError::InvalidConfig(t));
                },
            };
            if !self.running_counts.admits(node, &activation) {
                remaining.push(activation);
                continue;
            }
            let key = match &node.concurrency {
                NodeConcurrency::ByKey { key, .. } => concurrency_value(key, &activation.input),
                _ => None,
            };
            let by_node = match assoc_find(&self.running_counts.by_node, node.id.as_str()) {
                Some(c) => *c,
                None => 0,
            };
            let by_key = match &key {
                Some(k) => match find_key_count(&self.running_counts.by_key, node.id.as_str(), k.as_str()) {
                    c => c,
                },
                None => 0,
            };
            if by_node == usize::MAX || by_key == usize::MAX || self.running == usize::MAX {
                return Err(AgentCoreError::Fatal(owned("running attempt count limit reached")));
            }
            let key_copy = crate::message::dup_opt(&key);
            self.running_counts.start(node, key);
            let attempt_id = new_id();
            let context = NodeExecutionContext { run_id: self.run_id, attempt_id, node_id: dup_string(&node.id) };
            started.push(StartedAttempt {
                node: node.clone(),
                input: activation.input,
                context,
                package_version: activation.package_version,
                concurrency_key: key_copy,
            });
            self.running = self.running + 1;
        }
        self.activations = remaining;
        Ok(started)
    }

    /// Commits a finished attempt: its output messages are written port by port, and the
    /// attempt is recorded completed; a failed attempt is recorded failed and its error
    /// returned as recoverable.
    pub fn commit_running_result(&mut self, result: RunningResult) -> (r: AgentCoreResult<()>)
        requires
            old(self).wf(),
        ensures
            final(self).wf(),
            final(self).graph_view() == old(self).graph_view(),
            final(self).ledger_view().transfers == old(self).ledger_view().transfers,
            final(self).state_view().edge_states == old(self).state_view().edge_states,
            final(self).state_view().package_states == old(self).state_view().package_states,
            final(self).activations_view() == old(self).activations_view(),
            final(self).run_id_view() == old(self).run_id_view(),
            final(self).running_view() == if old(self).running_view() > 0 { (old(self).running_view() - 1) as usize } else { 0 },
            final(self).ledger_view().node_attempts@.len() == old(self).ledger_view().node_attempts@.len() + 1,
            final(self).ledger_view().node_attempts@.drop_last() == old(self).ledger_view().node_attempts@,
            ({
                let a = final(self).ledger_view().node_attempts@.last();
                &&& a.attempt_id == result.attempt_id && a.node@ == result.node_id@ && a.package_version == result.package_version
                &&& a.status == (if result.output is Ok { NodeAttemptStatus::Completed } else { NodeAttemptStatus::Failed })
            }),
            r is Ok <==> result.output is Ok,
            result.output matches Err(e) ==> (r matches Err(AgentCoreError::Recoverable(t))
                && crate::error::error_detail(&e) matches Some(d) ==> t@ == crate::error::error_prefix(&e) + d),
    {
        let RunningResult { attempt_id, node_id, package_version, concurrency_key, output } = result;
        self.running_counts.finish(node_id.as_str(), concurrency_key);
        self.running = if self.running > 0 { self.running - 1 } else { 0 };
        match output {
            Ok(out) => {
                let mut i: usize = 0;
                while i < out.messages.len()
                    invariant
                        self.wf(),
                        self.graph_view() == old(self).graph_view(),
                        self.ledger_view() == old(self).ledger_view(),
                        self.state_view().edge_states == old(self).state_view().edge_states,
                        self.state_view().package_states == old(self).state_view().package_states,
                        self.activations_view() == old(self).activations_view(),
                        self.run_id_view() == old(self).run_id_view(),
                        self.running_view() == if old(self).running_view() > 0 { (old(self).running_view() - 1) as usize } else { 0 },
                        i <= out.messages.len(),
                    decreases out.messages.len() - i,
                {
                    let output_ref = OutputRef::new(node_id.as_str(), out.messages[i].0.as_str());
                    let msgs = &out.messages[i].1;
                    let mut k: usize = 0;
                    while k < msgs.len()
                        invariant
                            self.wf(),
                            self.graph_view() == old(self).graph_view(),
                            self.ledger_view() == old(self).ledger_view(),
                            self.state_view().edge_states == old(self).state_view().edge_states,
                            self.state_view().package_states == old(self).state_view().package_states,
                            self.activations_view() == old(self).activations_view(),
                            self.run_id_view() == old(self).run_id_view(),
                            self.running_view() == if old(self).running_view() > 0 { (old(self).running_view() - 1) as usize } else { 0 },
                            k <= msgs.len(),
                        decreases msgs.len() - k,
                    {
                        self.commit_output(&output_ref, msgs[k].dup());
                        k += 1;
                    }
                    i += 1;
                }
                let node_name = dup_string(&node_id);
                self.ledger.node_attempts.push(NodeAttemptRecord { attempt_id, node: node_id, package_version, status: NodeAttemptStatus::Completed });
                self.ledger.events.push(RuntimeEvent::NodeCompleted { node: node_name });
                Ok(())
            },
            Err(error) => {
                let message = error.describe();
                let message_copy = dup_string(&message);
                let node_name = dup_string(&node_id);
                self.ledger.node_attempts.push(NodeAttemptRecord { attempt_id, node: node_id, package_version, status: NodeAttemptStatus::Failed });
                self.ledger.events.push(RuntimeEvent::NodeFailed { node: node_name, error: message });
                Err(AgentCoreError::Recoverable(message_copy))
            },
        }
    }
}

fn find_key_count(entries: &Vec<(String, String, usize)>, node: &str, key: &str) -> (r: usize)
    ensures
        r == crate::graph_runtime::key_count(entries@, node@, key@),
{
    let ghost s = entries@;
    assert(s.subrange(0, s.len() as int) =~= s);
    let mut i: usize = 0;
    while i < entries.len()
        invariant
            i <= entries.len(),
            s == entries@,
            crate::graph_runtime::key_count(s, node@, key@) == crate::graph_runtime::key_count(s.subrange(i as int, s.len() as int), node@, key@),
        decreases entries.len() - i,
    {
        let ghost sub = s.subrange(i as int, s.len() as int);
        assert(sub[0] == s[i as int]);
        if str_eq(entries[i].0.as_str(), node) && str_eq(entries[i].1.as_str(), key) {
            return entries[i].2;
        }
        assert(sub.drop_first() =~= s.subrange(i + 1, s.len() as int));
        i += 1;
    }
    0
}

impl GraphRuntime {
    pub fn run_id(&self) -> (r: u128)
        ensures
            r == self.run_id_view(),
    {
        self.run_id
    }

    /// The number of started attempts not yet committed.
    pub fn running(&self) -> (r: usize)
        ensures
            r == self.running_view(),
    {
        self.running
    }

    /// Begins a run: takes the input's run id when it has one and writes the initial
    /// messages to the graph input, in order.
    pub fn start(&mut self, input: crate::graph_runtime::GraphRunInput)
        requires
            old(self).wf(),
        ensures
            final(self).wf(),
            final(self).graph_view() == old(self).graph_view(),
            final(self).ledger_view() == old(self).ledger_view(),
            final(self).running_view() == old(self).running_view(),
            final(self).activations_view() == old(self).activations_view(),
            final(self).run_id_view() == match input.run_id {
                Some(id) => id,
                None => old(self).run_id_view(),
            },
    {
        if let Some(id) = input.run_id {
            self.run_id = id;
        }
        let graph_input = self.graph.input().dup();
        let mut messages = input.initial_messages;
        let mut i: usize = 0;
        let n = messages.len();
        while i < n
            invariant
                self.wf(),
                self.graph_view() == old(self).graph_view(),
                self.ledger_view() == old(self).ledger_view(),
                self.running_view() == old(self).running_view(),
                self.activations_view() == old(self).activations_view(),
                self.run_id_view() == match input.run_id {
                    Some(id) => id,
                    None => old(self).run_id_view(),
                },
                i <= n,
                messages.len() == n,
            decreases n - i,
        {
            let m = messages[i].dup();
            self.commit_output(&graph_input, m);
            i += 1;
        }
    }

    /// One pass of the run loop before waiting: ends the run when the finish node has
    /// completed, or when `ticks` has reached `max_ticks`; otherwise scans the edges, queues
    /// ready activations and starts the admitted ones, and ends the run when the finish node
    /// has completed and nothing runs. Returns what to do next and the attempts started.
    pub fn tick(&mut self, ticks: usize, max_ticks: usize) -> (r: AgentCoreResult<(RunStep, Vec<StartedAttempt>)>)
        requires
            old(self).wf(),
        ensures
            final(self).wf(),
            final(self).graph_view() == old(self).graph_view(),
            final(self).run_id_view() == old(self).run_id_view(),
            old(self).ledger_view().transfers@.len() <= final(self).ledger_view().transfers@.len(),
            final(self).ledger_view().transfers@.subrange(0, old(self).ledger_view().transfers@.len() as int)
                == old(self).ledger_view().transfers@,
            finish_reached(old(self).graph_view(), old(self).ledger_view())
                ==> (r matches Ok((step, started)) && step == RunStep::Finish(GraphRunStatus::Completed, None) && started@.len() == 0),
            !finish_reached(old(self).graph_view(), old(self).ledger_view()) && ticks >= max_ticks
                ==> (r matches Ok((step, started)) && started@.len() == 0 && (step matches RunStep::Finish(GraphRunStatus::BudgetExceeded, Some(t))
                && t@ == "graph runtime tick budget exceeded"@)),
            r matches Ok((_, started)) ==> final(self).running_view() == old(self).running_view() + started@.len(),
    {
        if self.finish_policy_satisfied() {
            return Ok((RunStep::Finish(GraphRunStatus::Completed, None), Vec::new()));
        }
        if ticks >= max_ticks {
            return Ok((RunStep::Finish(GraphRunStatus::BudgetExceeded, Some(owned("graph runtime tick budget exceeded"))), Vec::new()));
        }
        let ghost t0 = self.ledger.transfers@;
        self.scan_edges()?;
        let ghost t1 = self.ledger.transfers@;
        self.enqueue_ready_activations()?;
        let started = self.spawn_ready_activations()?;
        proof {
            assert(self.ledger_view().transfers@ == t1);
        }
        if self.finish_policy_satisfied() && self.running == 0 {
            return Ok((RunStep::Finish(GraphRunStatus::Completed, None), started));
        }
        Ok((RunStep::Continue, started))
    }

    /// Commits a finished attempt: a failed attempt ends the run as failed with the error's
    /// text; the run completes when the finish node has now completed; otherwise it goes on.
    pub fn after_result(&mut self, result: RunningResult) -> (r: RunStep)
        requires
            old(self).wf(),
        ensures
            final(self).wf(),
            final(self).graph_view() == old(self).graph_view(),
            final(self).run_id_view() == old(self).run_id_view(),
            result.output is Err ==> r matches RunStep::Finish(GraphRunStatus::Failed, Some(_)),
            result.output is Ok ==> r == (if finish_reached(final(self).graph_view(), final(self).ledger_view()) {
                RunStep::Finish(GraphRunStatus::Completed, None)
            } else {
                RunStep::Continue
            }),
    {
        match self.commit_running_result(result) {
            Err(e) => RunStep::Finish(GraphRunStatus::Failed, Some(e.describe())),
            Ok(()) => {
                if self.finish_policy_satisfied() {
                    RunStep::Finish(GraphRunStatus::Completed, None)
                } else {
                    RunStep::Continue
                }
            },
        }
    }

    /// With nothing running: the run ends when no activation waits, completed if the finish
    /// node has completed and drained otherwise; else it goes on.
    pub fn idle_step(&self) -> (r: RunStep)
        ensures
            self.activations_view().len() == 0 ==> r == RunStep::Finish(
                if finish_reached(self.graph_view(), self.ledger_view()) {
                    GraphRunStatus::Completed
                } else {
                    GraphRunStatus::Drained
                },
                None,
            ),
            self.activations_view().len() > 0 ==> r == RunStep::Continue,
    {
        if self.activations.len() == 0 {
            let status = if self.finish_policy_satisfied() {
                GraphRunStatus::Completed
            } else {
                GraphRunStatus::Drained
            };
            RunStep::Finish(status, None)
        } else {
            RunStep::Continue
        }
    }
}

} // verus!
