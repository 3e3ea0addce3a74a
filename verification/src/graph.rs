//! A validated graph of nodes and edges, and the builder that checks it.

use vstd::prelude::*;
use crate::assoc::{
    assoc_contains, assoc_find, assoc_get, assoc_set, assoc_sorted, pairs_view, set_add, set_sorted,
    strings_contain, strings_view,
};
use crate::error::{AgentCoreError, AgentCoreResult};
use crate::graph_edge::{EdgeV, GraphEdge};
use crate::graph_node::{GraphNode, NodeV};
use crate::graph_state::GraphStateBudget;
use crate::text::{is_blank, owned, seq_lt, str_eq, str_is_blank, str_lt};

verus! {

/// The mathematical value of a [`Graph`] or a [`GraphBuilder`].
pub struct GraphV {
    pub name: Seq<char>,
    /// Nodes by id, in id order.
    pub nodes: Seq<(Seq<char>, NodeV)>,
    pub edges: Seq<EdgeV>,
    pub start_node_ids: Seq<Seq<char>>,
    /// End node ids, in order, each once.
    pub end_node_ids: Seq<Seq<char>>,
    pub budget: GraphStateBudget,
}

pub open spec fn edges_view(v: Seq<GraphEdge>) -> Seq<EdgeV> {
    Seq::new(v.len(), |i: int| v[i].view())
}

/// Node maps keyed by each node's own id.
pub open spec fn nodes_keyed(nodes: Seq<(Seq<char>, NodeV)>) -> bool {
    &&& assoc_sorted(nodes)
    &&& forall|i: int| 0 <= i < nodes.len() ==> (#[trigger] nodes[i]).0 == nodes[i].1.id
}

pub open spec fn has_node(nodes: Seq<(Seq<char>, NodeV)>, id: Seq<char>) -> bool {
    assoc_get(nodes, id) is Some
}

/// The order edges are kept in: by source node id, then priority, then edge id.
pub open spec fn edge_before(a: EdgeV, b: EdgeV) -> bool {
    ||| seq_lt(a.source_node_id, b.source_node_id)
    ||| (a.source_node_id == b.source_node_id && a.priority < b.priority)
    ||| (a.source_node_id == b.source_node_id && a.priority == b.priority && seq_lt(a.id, b.id))
}

/// `e` placed after every edge of `s` that it does not come before.
pub open spec fn insert_edge(s: Seq<EdgeV>, e: EdgeV) -> Seq<EdgeV>
    decreases s.len(),
{
    if s.len() == 0 {
        seq![e]
    } else if edge_before(e, s[0]) {
        seq![e] + s
    } else {
        seq![s[0]] + insert_edge(s.drop_first(), e)
    }
}

/// The edges in stable order (equal keys keep the order they were added in).
pub open spec fn sort_edges(s: Seq<EdgeV>) -> Seq<EdgeV>
    decreases s.len(),
{
    if s.len() == 0 {
        Seq::empty()
    } else {
        insert_edge(sort_edges(s.drop_last()), s.last())
    }
}

/// The first id of `ids` that is not a node.
pub open spec fn first_missing(ids: Seq<Seq<char>>, nodes: Seq<(Seq<char>, NodeV)>) -> Option<Seq<char>>
    decreases ids.len(),
{
    if ids.len() == 0 {
        None
    } else if !has_node(nodes, ids[0]) {
        Some(ids[0])
    } else {
        first_missing(ids.drop_first(), nodes)
    }
}

/// The refusal for the first edge whose source or target is not a node.
pub open spec fn edge_error(edges: Seq<EdgeV>, nodes: Seq<(Seq<char>, NodeV)>) -> Option<Seq<char>>
    decreases edges.len(),
{
    if edges.len() == 0 {
        None
    } else if !has_node(nodes, edges[0].source_node_id) {
        Some("edge "@ + edges[0].id + " source node not found: "@ + edges[0].source_node_id)
    } else if !has_node(nodes, edges[0].target_node_id) {
        Some("edge "@ + edges[0].id + " target node not found: "@ + edges[0].target_node_id)
    } else {
        edge_error(edges.drop_first(), nodes)
    }
}

/// Why a builder does not make a graph, in the order the checks are made; `None` when it does.
pub open spec fn build_error(b: GraphV) -> Option<Seq<char>> {
    if is_blank(b.name) {
        Some("graph name must not be empty"@)
    } else if b.start_node_ids.len() == 0 {
        Some("graph must define at least one start node"@)
    } else if exists|i: int| 0 <= i < b.nodes.len() && is_blank(#[trigger] b.nodes[i].0) {
        Some("graph node id must not be empty"@)
    } else if first_missing(b.start_node_ids, b.nodes) is Some {
        Some("start node not found: "@ + first_missing(b.start_node_ids, b.nodes)->0)
    } else if first_missing(b.end_node_ids, b.nodes) is Some {
        Some("end node not found: "@ + first_missing(b.end_node_ids, b.nodes)->0)
    } else {
        edge_error(b.edges, b.nodes)
    }
}

impl GraphV {
    /// What every built graph satisfies.
    pub open spec fn wf(self) -> bool {
        &&& !is_blank(self.name)
        &&& self.start_node_ids.len() > 0
        &&& nodes_keyed(self.nodes)
        &&& set_sorted(self.end_node_ids)
        &&& forall|i: int| 0 <= i < self.nodes.len() ==> !is_blank(#[trigger] self.nodes[i].0)
        &&& forall|i: int| 0 <= i < self.start_node_ids.len() ==> has_node(self.nodes, #[trigger] self.start_node_ids[i])
        &&& forall|i: int| 0 <= i < self.end_node_ids.len() ==> has_node(self.nodes, #[trigger] self.end_node_ids[i])
        &&& forall|i: int| 0 <= i < self.edges.len() ==> has_node(self.nodes, (#[trigger] self.edges[i]).source_node_id)
            && has_node(self.nodes, self.edges[i].target_node_id)
    }

    /// The outgoing edges of a node, in edge order.
    pub open spec fn outgoing(self, node: Seq<char>) -> Seq<EdgeV> {
        self.edges.filter(|e: EdgeV| e.source_node_id == node)
    }
}

/// A validated graph: every referenced node exists.
#[derive(Debug)]
pub struct Graph {
    name: String,
    nodes: Vec<(String, GraphNode)>,
    edges: Vec<GraphEdge>,
    start_node_ids: Vec<String>,
    end_node_ids: Vec<String>,
    budget: GraphStateBudget,
}

impl Graph {
    pub closed spec fn view(&self) -> GraphV {
        GraphV {
            name: self.name@,
            nodes: pairs_view(self.nodes@),
            edges: edges_view(self.edges@),
            start_node_ids: strings_view(self.start_node_ids@),
            end_node_ids: strings_view(self.end_node_ids@),
            budget: self.budget,
        }
    }

    #[verifier::type_invariant]
    closed spec fn inv(self) -> bool {
        self.view().wf()
    }

    pub fn builder(name: &str) -> (r: GraphBuilder)
        ensures
            r.view() == (GraphV {
                name: name@,
                nodes: Seq::empty(),
                edges: Seq::empty(),
                start_node_ids: Seq::empty(),
                end_node_ids: Seq::empty(),
                budget: GraphStateBudget {
                    max_total_node_executions: Some(100),
                    max_node_executions: Some(20),
                    max_no_progress_ticks: Some(10),
                },
            }),
    {
        GraphBuilder::new(name)
    }

    /// Every graph is well formed.
    pub fn check_wf(&self)
        ensures
            self.view().wf(),
    {
        proof {
            use_type_invariant(self);
        }
    }

    pub fn name(&self) -> (r: &str)
        ensures
            r@ == self.view().name,
    {
        self.name.as_str()
    }

    pub fn node(&self, node_id: &str) -> (r: Option<&GraphNode>)
        ensures
            match r {
                Some(n) => assoc_get(self.view().nodes, node_id@) == Some(n@),
                None => assoc_get(self.view().nodes, node_id@) is None,
            },
    {
        assoc_find(&self.nodes, node_id)
    }

    pub fn nodes(&self) -> (r: &Vec<(String, GraphNode)>)
        ensures
            pairs_view(r@) == self.view().nodes,
    {
        &self.nodes
    }

    pub fn edges(&self) -> (r: &Vec<GraphEdge>)
        ensures
            edges_view(r@) == self.view().edges,
    {
        &self.edges
    }

    pub fn start_node_ids(&self) -> (r: &Vec<String>)
        ensures
            strings_view(r@) == self.view().start_node_ids,
    {
        &self.start_node_ids
    }

    pub fn is_end_node(&self, node_id: &str) -> (r: bool)
        ensures
            r == self.view().end_node_ids.contains(node_id@),
    {
        strings_contain(&self.end_node_ids, node_id)
    }

    pub fn budget(&self) -> (r: &GraphStateBudget)
        ensures
            *r == self.view().budget,
    {
        &self.budget
    }

    /// The edges leaving `node_id`, in edge order.
    pub fn outgoing_edges(&self, node_id: &str) -> (r: Vec<GraphEdge>)
        ensures
            edges_view(r@) == self.view().outgoing(node_id@),
    {
        let ghost all = edges_view(self.edges@);
        let mut out: Vec<GraphEdge> = Vec::new();
        let mut i: usize = 0;
        while i < self.edges.len()
            invariant
                i <= self.edges.len(),
                all == edges_view(self.edges@),
                edges_view(out@) == all.subrange(0, i as int).filter(|e: EdgeV| e.source_node_id == node_id@),
            decreases self.edges.len() - i,
        {
            proof {
                assert(all.subrange(0, i + 1).drop_last() =~= all.subrange(0, i as int));
                reveal_with_fuel(Seq::<EdgeV>::filter, 1);
            }
            if str_eq(self.edges[i].source_node_id(), node_id) {
                let ghost prev = edges_view(out@);
                let e = self.edges[i].dup();
                out.push(e);
                proof {
                    assert(edges_view(out@) =~= prev.push(e.view()));
                }
            }
            i += 1;
        }
        proof {
            assert(all.subrange(0, i as int) =~= all);
        }
        out
    }
}

/// Collects nodes, edges, start and end nodes and a budget, then checks them into a
/// [`Graph`].
#[derive(Debug)]
pub struct GraphBuilder {
    name: String,
    nodes: Vec<(String, GraphNode)>,
    edges: Vec<GraphEdge>,
    start_node_ids: Vec<String>,
    end_node_ids: Vec<String>,
    budget: GraphStateBudget,
}

fn edge_before_exec(a: &GraphEdge, b: &GraphEdge) -> (r: bool)
    ensures
        r == edge_before(a.view(), b.view()),
{
    if str_lt(a.source_node_id(), b.source_node_id()) {
        return true;
    }
    if !str_eq(a.source_node_id(), b.source_node_id()) {
        return false;
    }
    if a.priority() < b.priority() {
        return true;
    }
    if a.priority() != b.priority() {
        return false;
    }
    str_lt(a.id(), b.id())
}

proof fn lemma_insert_edge_at(s: Seq<EdgeV>, e: EdgeV, p: int)
    requires
        0 <= p <= s.len(),
        forall|k: int| 0 <= k < p ==> !edge_before(e, #[trigger] s[k]),
        p < s.len() ==> edge_before(e, s[p]),
    ensures
        insert_edge(s, e) == s.insert(p, e),
    decreases p,
{
    if p == 0 {
        if s.len() == 0 {
            assert(seq![e] =~= s.insert(0, e));
        } else {
            assert(seq![e] + s =~= s.insert(0, e));
        }
    } else {
        let rest = s.drop_first();
        assert forall|k: int| 0 <= k < p - 1 implies !edge_before(e, #[trigger] rest[k]) by {
            assert(rest[k] == s[k + 1]);
        }
        assert(!edge_before(e, s[0]));
        lemma_insert_edge_at(rest, e, p - 1);
        assert(seq![s[0]] + rest.insert(p - 1, e) =~= s.insert(p, e));
    }
}

/// Sorts edges into edge order, keeping the order of edges with equal keys.
fn sort_edge_list(edges: &Vec<GraphEdge>) -> (r: Vec<GraphEdge>)
    ensures
        edges_view(r@) == sort_edges(edges_view(edges@)),
{
    let ghost input = edges_view(edges@);
    let mut out: Vec<GraphEdge> = Vec::new();
    let mut i: usize = 0;
    while i < edges.len()
        invariant
            i <= edges.len(),
            input == edges_view(edges@),
            edges_view(out@) == sort_edges(input.subrange(0, i as int)),
        decreases edges.len() - i,
    {
        let e = edges[i].dup();
        let ghost sorted = edges_view(out@);
        let mut p: usize = 0;
        while p < out.len() && !edge_before_exec(&e, &out[p])
            invariant
                p <= out.len(),
                sorted == edges_view(out@),
                forall|k: int| 0 <= k < p ==> !edge_before(e.view(), #[trigger] sorted[k]),
            decreases out.len() - p,
        {
            p += 1;
        }
        proof {
            lemma_insert_edge_at(sorted, e.view(), p as int);
            assert(input.subrange(0, i + 1).drop_last() =~= input.subrange(0, i as int));
            assert(input.subrange(0, i + 1).last() == e.view());
        }
        out.insert(p, e);
        proof {
            assert(edges_view(out@) =~= sorted.insert(p as int, e.view()));
        }
        i += 1;
    }
    proof {
        assert(input.subrange(0, i as int) =~= input);
    }
    out
}

impl GraphBuilder {
    pub closed spec fn view(&self) -> GraphV {
        GraphV {
            name: self.name@,
            nodes: pairs_view(self.nodes@),
            edges: edges_view(self.edges@),
            start_node_ids: strings_view(self.start_node_ids@),
            end_node_ids: strings_view(self.end_node_ids@),
            budget: self.budget,
        }
    }

    #[verifier::type_invariant]
    closed spec fn inv(self) -> bool {
        &&& nodes_keyed(self.view().nodes)
        &&& set_sorted(self.view().end_node_ids)
    }

    /// An empty builder with the default budget.
    pub fn new(name: &str) -> (r: GraphBuilder)
        ensures
            r.view() == (GraphV {
                name: name@,
                nodes: Seq::empty(),
                edges: Seq::empty(),
                start_node_ids: Seq::empty(),
                end_node_ids: Seq::empty(),
                budget: GraphStateBudget {
                    max_total_node_executions: Some(100),
                    max_node_executions: Some(20),
                    max_no_progress_ticks: Some(10),
                },
            }),
    {
        let b = GraphBuilder {
            name: owned(name),
            nodes: Vec::new(),
            edges: Vec::new(),
            start_node_ids: Vec::new(),
            end_node_ids: Vec::new(),
            budget: GraphStateBudget::default(),
        };
        proof {
            assert(pairs_view(b.nodes@) =~= Seq::<(Seq<char>, NodeV)>::empty());
            assert(edges_view(b.edges@) =~= Seq::<EdgeV>::empty());
            assert(strings_view(b.start_node_ids@) =~= Seq::<Seq<char>>::empty());
            assert(strings_view(b.end_node_ids@) =~= Seq::<Seq<char>>::empty());
        }
        b
    }

    /// Adds a node, replacing any node with the same id.
    pub fn node(self, node: GraphNode) -> (r: GraphBuilder)
        ensures
            r.view() == (GraphV { nodes: crate::assoc::assoc_insert(self.view().nodes, node@.id, node@), ..self.view() }),
    {
        proof {
            use_type_invariant(&self);
        }
        let GraphBuilder { name, mut nodes, edges, start_node_ids, end_node_ids, budget } = self;
        let id = owned(node.id());
        let ghost nv = node@;
        let ghost before = pairs_view(nodes@);
        assoc_set(&mut nodes, id.as_str(), node);
        proof {
            let after = pairs_view(nodes@);
            assert forall|i: int| 0 <= i < after.len() implies (#[trigger] after[i]).0 == after[i].1.id by {
                crate::assoc::lemma_assoc_get_at(after, i);
                crate::assoc::lemma_assoc_get_insert(before, id@, nv, after[i].0);
                if after[i].0 != id@ {
                    crate::assoc::lemma_assoc_get_index(before, after[i].0);
                }
            }
        }
        GraphBuilder { name, nodes, edges, start_node_ids, end_node_ids, budget }
    }

    pub fn edge(self, edge: GraphEdge) -> (r: GraphBuilder)
        ensures
            r.view() == (GraphV { edges: self.view().edges.push(edge.view()), ..self.view() }),
    {
        proof {
            use_type_invariant(&self);
        }
        let GraphBuilder { name, nodes, mut edges, start_node_ids, end_node_ids, budget } = self;
        let ghost before = edges_view(edges@);
        let ghost ev = edge.view();
        edges.push(edge);
        proof {
            assert(edges_view(edges@) =~= before.push(ev));
        }
        GraphBuilder { name, nodes, edges, start_node_ids, end_node_ids, budget }
    }

    pub fn start_node(self, node_id: &str) -> (r: GraphBuilder)
        ensures
            r.view() == (GraphV { start_node_ids: self.view().start_node_ids.push(node_id@), ..self.view() }),
    {
        proof {
            use_type_invariant(&self);
        }
        let GraphBuilder { name, nodes, edges, mut start_node_ids, end_node_ids, budget } = self;
        let ghost before = strings_view(start_node_ids@);
        start_node_ids.push(owned(node_id));
        proof {
            assert(strings_view(start_node_ids@) =~= before.push(node_id@));
        }
        GraphBuilder { name, nodes, edges, start_node_ids, end_node_ids, budget }
    }

    /// Adds an end node id (kept once, in order).
    pub fn end_node(self, node_id: &str) -> (r: GraphBuilder)
        ensures
            set_sorted(r.view().end_node_ids),
            r.view().end_node_ids.to_set() == self.view().end_node_ids.to_set().insert(node_id@),
            r.view() == (GraphV { end_node_ids: r.view().end_node_ids, ..self.view() }),
    {
        proof {
            use_type_invariant(&self);
        }
        let GraphBuilder { name, nodes, edges, start_node_ids, mut end_node_ids, budget } = self;
        set_add(&mut end_node_ids, node_id);
        GraphBuilder { name, nodes, edges, start_node_ids, end_node_ids, budget }
    }

    pub fn budget(self, budget: GraphStateBudget) -> (r: GraphBuilder)
        ensures
            r.view() == (GraphV { budget, ..self.view() }),
    {
        proof {
            use_type_invariant(&self);
        }
        let GraphBuilder { name, nodes, edges, start_node_ids, end_node_ids, budget: _ } = self;
        GraphBuilder { name, nodes, edges, start_node_ids, end_node_ids, budget }
    }

    /// Checks the graph: a non-blank name, at least one start node, non-blank node ids, and
    /// every start node, end node, edge source and edge target defined. The edges come out in
    /// edge order.
    pub fn build(self) -> (r: AgentCoreResult<Graph>)
        ensures
            match build_error(self.view()) {
                Some(t) => r matches Err(AgentCoreError::InvalidConfig(s)) && s@ == t,
                None => r matches Ok(g) && g.view() == (GraphV { edges: sort_edges(self.view().edges), ..self.view() }),
            },
    {
        proof {
            use_type_invariant(&self);
        }
        let ghost b = self.view();
        if str_is_blank(self.name.as_str()) {
            return Err(AgentCoreError::InvalidConfig(owned("graph name must not be empty")));
        }
        if self.start_node_ids.len() == 0 {
            return Err(AgentCoreError::InvalidConfig(owned("graph must define at least one start node")));
        }
        let mut i: usize = 0;
        while i < self.nodes.len()
            invariant
                i <= self.nodes.len(),
                b == self.view(),
                !is_blank(b.name),
                b.start_node_ids.len() > 0,
                forall|k: int| 0 <= k < i ==> !is_blank(#[trigger] b.nodes[k].0),
            decreases self.nodes.len() - i,
        {
            if str_is_blank(self.nodes[i].0.as_str()) {
                assert(is_blank(b.nodes[i as int].0));
                return Err(AgentCoreError::InvalidConfig(owned("graph node id must not be empty")));
            }
            i += 1;
        }
        proof {
            assert(b.start_node_ids.subrange(0, b.start_node_ids.len() as int) =~= b.start_node_ids);
        }
        let mut i: usize = 0;
        while i < self.start_node_ids.len()
            invariant
                i <= self.start_node_ids.len(),
                b == self.view(),
                !is_blank(b.name),
                b.start_node_ids.len() > 0,
                forall|k: int| 0 <= k < b.nodes.len() ==> !is_blank(#[trigger] b.nodes[k].0),
                first_missing(b.start_node_ids, b.nodes) == first_missing(b.start_node_ids.subrange(i as int, b.start_node_ids.len() as int), b.nodes),
                forall|k: int| 0 <= k < i ==> has_node(b.nodes, #[trigger] b.start_node_ids[k]),
            decreases self.start_node_ids.len() - i,
        {
            let ghost sub = b.start_node_ids.subrange(i as int, b.start_node_ids.len() as int);
            assert(sub[0] == b.start_node_ids[i as int]);
            if !assoc_contains(&self.nodes, self.start_node_ids[i].as_str()) {
                let mut t = owned("start node not found: ");
                t.append(self.start_node_ids[i].as_str());
                return Err(AgentCoreError::InvalidConfig(t));
            }
            assert(sub.drop_first() =~= b.start_node_ids.subrange(i + 1, b.start_node_ids.len() as int));
            i += 1;
        }
        proof {
            let ids = b.start_node_ids;
            assert(ids.subrange(ids.len() as int, ids.len() as int).len() == 0);
        }
        proof {
            assert(b.end_node_ids.subrange(0, b.end_node_ids.len() as int) =~= b.end_node_ids);
        }
        let mut i: usize = 0;
        while i < self.end_node_ids.len()
            invariant
                i <= self.end_node_ids.len(),
                b == self.view(),
                !is_blank(b.name),
                b.start_node_ids.len() > 0,
                forall|k: int| 0 <= k < b.nodes.len() ==> !is_blank(#[trigger] b.nodes[k].0),
                first_missing(b.start_node_ids, b.nodes) is None,
                first_missing(b.end_node_ids, b.nodes) == first_missing(b.end_node_ids.subrange(i as int, b.end_node_ids.len() as int), b.nodes),
                forall|k: int| 0 <= k < i ==> has_node(b.nodes, #[trigger] b.end_node_ids[k]),
            decreases self.end_node_ids.len() - i,
        {
            let ghost sub = b.end_node_ids.subrange(i as int, b.end_node_ids.len() as int);
            assert(sub[0] == b.end_node_ids[i as int]);
            if !assoc_contains(&self.nodes, self.end_node_ids[i].as_str()) {
                let mut t = owned("end node not found: ");
                t.append(self.end_node_ids[i].as_str());
                return Err(AgentCoreError::InvalidConfig(t));
            }
            assert(sub.drop_first() =~= b.end_node_ids.subrange(i + 1, b.end_node_ids.len() as int));
            i += 1;
        }
        proof {
            let ids = b.end_node_ids;
            assert(ids.subrange(ids.len() as int, ids.len() as int).len() == 0);
        }
        proof {
            assert(b.edges.subrange(0, b.edges.len() as int) =~= b.edges);
        }
        let mut i: usize = 0;
        while i < self.edges.len()
            invariant
                i <= self.edges.len(),
                b == self.view(),
                !is_blank(b.name),
                b.start_node_ids.len() > 0,
                forall|k: int| 0 <= k < b.nodes.len() ==> !is_blank(#[trigger] b.nodes[k].0),
                first_missing(b.start_node_ids, b.nodes) is None,
                first_missing(b.end_node_ids, b.nodes) is None,
                edge_error(b.edges, b.nodes) == edge_error(b.edges.subrange(i as int, b.edges.len() as int), b.nodes),
                forall|k: int| 0 <= k < i ==> has_node(b.nodes, (#[trigger] b.edges[k]).source_node_id) && has_node(b.nodes, b.edges[k].target_node_id),
            decreases self.edges.len() - i,
        {
            let ghost sub = b.edges.subrange(i as int, b.edges.len() as int);
            assert(sub[0] == b.edges[i as int]);
            let e = &self.edges[i];
            if !assoc_contains(&self.nodes, e.source_node_id()) {
                let mut t = owned("edge ");
                t.append(e.id());
                t.append(" source node not found: ");
                t.append(e.source_node_id());
                return Err(AgentCoreError::InvalidConfig(t));
            }
            if !assoc_contains(&self.nodes, e.target_node_id()) {
                let mut t = owned("edge ");
                t.append(e.id());
                t.append(" target node not found: ");
                t.append(e.target_node_id());
                return Err(AgentCoreError::InvalidConfig(t));
            }
            assert(sub.drop_first() =~= b.edges.subrange(i + 1, b.edges.len() as int));
            i += 1;
        }
        proof {
            let es = b.edges;
            assert(es.subrange(es.len() as int, es.len() as int).len() == 0);
        }
        let sorted = sort_edge_list(&self.edges);
        proof {
            lemma_sort_edges_keeps(b.edges);
            let se = sort_edges(b.edges);
            assert forall|k: int| 0 <= k < se.len() implies has_node(b.nodes, (#[trigger] se[k]).source_node_id)
                && has_node(b.nodes, se[k].target_node_id) by {
                assert(se.contains(se[k]));
                let j = choose|j: int| 0 <= j < b.edges.len() && b.edges[j] == se[k];
            }
        }
        let GraphBuilder { name, nodes, edges: _, start_node_ids, end_node_ids, budget } = self;
        Ok(Graph { name, nodes, edges: sorted, start_node_ids, end_node_ids, budget })
    }
}

proof fn lemma_insert_edge_pos(s: Seq<EdgeV>, e: EdgeV) -> (p: int)
    ensures
        0 <= p <= s.len(),
        insert_edge(s, e) == s.insert(p, e),
    decreases s.len(),
{
    if s.len() == 0 {
        assert(seq![e] =~= s.insert(0, e));
        0
    } else if edge_before(e, s[0]) {
        assert(seq![e] + s =~= s.insert(0, e));
        0
    } else {
        let q = lemma_insert_edge_pos(s.drop_first(), e);
        assert(seq![s[0]] + s.drop_first().insert(q, e) =~= s.insert(q + 1, e));
        q + 1
    }
}

/// Sorting keeps exactly the edges it was given (as a set of values).
pub proof fn lemma_sort_edges_keeps(s: Seq<EdgeV>)
    ensures
        sort_edges(s).len() == s.len(),
        forall|x: EdgeV| #[trigger] sort_edges(s).contains(x) <==> s.contains(x),
    decreases s.len(),
{
    if s.len() > 0 {
        let prev = sort_edges(s.drop_last());
        lemma_sort_edges_keeps(s.drop_last());
        let p = lemma_insert_edge_pos(prev, s.last());
        let r = prev.insert(p, s.last());
        assert forall|x: EdgeV| #[trigger] sort_edges(s).contains(x) <==> s.contains(x) by {
            if r.contains(x) {
                let k = choose|k: int| 0 <= k < r.len() && r[k] == x;
                if k < p {
                    assert(prev[k] == x);
                    assert(prev.contains(x));
                } else if k > p {
                    assert(prev[k - 1] == x);
                    assert(prev.contains(x));
                } else {
                    assert(s[s.len() - 1] == x);
                }
                if prev.contains(x) {
                    assert(s.drop_last().contains(x));
                    let j = choose|j: int| 0 <= j < s.drop_last().len() && s.drop_last()[j] == x;
                    assert(s[j] == x);
                }
            }
            if s.contains(x) {
                let k = choose|k: int| 0 <= k < s.len() && s[k] == x;
                if k < s.len() - 1 {
                    assert(s.drop_last()[k] == x);
                    assert(s.drop_last().contains(x));
                    assert(prev.contains(x));
                    let j = choose|j: int| 0 <= j < prev.len() && prev[j] == x;
                    if j < p {
                        assert(r[j] == x);
                    } else {
                        assert(r[j + 1] == x);
                    }
                } else {
                    assert(r[p] == x);
                }
            }
        }
    }
}

} // verus!
