//! The package-driven graph model: nodes with an input package of query items, edges from
//! output ports to input packages, and the builder that checks them.

use vstd::prelude::*;
use crate::assoc::{assoc_contains, assoc_find, assoc_get, assoc_insert, assoc_set, assoc_sorted, pairs_view};
use crate::error::{AgentCoreError, AgentCoreResult};
use crate::graph_query::{MessageQuery, FieldOp};
use crate::json::Json;
use crate::text::{dup_string, is_blank, owned, str_eq, str_is_blank};

verus! {

/// An output port of a node.
#[derive(Debug, Clone, PartialEq, Eq, PartialOrd, Ord, Hash)]
pub struct OutputRef {
    pub node: String,
    pub port: String,
}

impl OutputRef {
    pub fn new(node: &str, port: &str) -> (r: OutputRef)
        ensures
            r.node@ == node@ && r.port@ == port@,
    {
        OutputRef { node: owned(node), port: owned(port) }
    }

    pub fn dup(&self) -> (r: OutputRef)
        ensures
            r.node@ == self.node@ && r.port@ == self.port@,
    {
        OutputRef { node: dup_string(&self.node), port: dup_string(&self.port) }
    }
}

/// The input package of a node.
#[derive(Debug, Clone, PartialEq, Eq, PartialOrd, Ord, Hash)]
pub struct PackageRef {
    pub node: String,
    pub package: String,
}

impl PackageRef {
    pub fn new(node: &str, package: &str) -> (r: PackageRef)
        ensures
            r.node@ == node@ && r.package@ == package@,
    {
        PackageRef { node: owned(node), package: owned(package) }
    }

    pub fn dup(&self) -> (r: PackageRef)
        ensures
            r.node@ == self.node@ && r.package@ == self.package@,
    {
        PackageRef { node: dup_string(&self.node), package: dup_string(&self.package) }
    }
}

/// An edge from an output port to an input package.
#[derive(Debug, Clone, PartialEq)]
pub struct GraphEdge {
    pub id: String,
    pub from: OutputRef,
    pub to: PackageRef,
}

impl GraphEdge {
    pub fn new(id: &str, from: (&str, &str), to: (&str, &str)) -> (r: GraphEdge)
        ensures
            r.id@ == id@,
            r.from.node@ == from.0@ && r.from.port@ == from.1@,
            r.to.node@ == to.0@ && r.to.package@ == to.1@,
    {
        GraphEdge { id: owned(id), from: OutputRef::new(from.0, from.1), to: PackageRef::new(to.0, to.1) }
    }

    pub fn id(&self) -> (r: &str)
        ensures
            r@ == self.id@,
    {
        self.id.as_str()
    }

    pub fn from(&self) -> (r: &OutputRef)
        ensures
            r == &self.from,
    {
        &self.from
    }

    pub fn to(&self) -> (r: &PackageRef)
        ensures
            r == &self.to,
    {
        &self.to
    }

    pub fn dup(&self) -> (r: GraphEdge)
        ensures
            r.id@ == self.id@,
            r.from.node@ == self.from.node@ && r.from.port@ == self.from.port@,
            r.to.node@ == self.to.node@ && r.to.package@ == self.to.package@,
    {
        GraphEdge { id: dup_string(&self.id), from: self.from.dup(), to: self.to.dup() }
    }
}

/// How many matches of an item a package keeps and needs.
#[derive(Debug, Clone, Copy, PartialEq, Eq, Structural)]
pub enum Cardinality {
    /// Keeps only the latest match; ready with one.
    Latest,
    /// Keeps every match; ready with one.
    One,
    /// Keeps every match; ready with at least this many.
    AtLeast(usize),
}

/// A named query whose matches fill one item of a package.
#[derive(Debug, Clone, PartialEq)]
pub struct PackageItemSpec {
    pub name: String,
    pub query: MessageQuery,
    pub cardinality: Cardinality,
}

impl PackageItemSpec {
    pub fn new(name: &str, query: MessageQuery, cardinality: Cardinality) -> (r: PackageItemSpec)
        ensures
            r.name@ == name@ && r.query == query && r.cardinality == cardinality,
    {
        PackageItemSpec { name: owned(name), query, cardinality }
    }
}

#[derive(Debug, Clone, Copy, PartialEq, Eq, Structural)]
pub enum PackageItemKind {
    Required,
    Optional,
}

/// A node's input package: required items gate activation, optional ones ride along.
#[derive(Debug, Clone, PartialEq)]
pub struct InputPackageSpec {
    pub name: String,
    pub required: Vec<PackageItemSpec>,
    pub optional: Vec<PackageItemSpec>,
}

pub open spec fn item_names(v: Seq<PackageItemSpec>) -> Seq<Seq<char>> {
    Seq::new(v.len(), |i: int| v[i].name@)
}

/// The package's items, required ones first, each with its kind.
pub open spec fn package_items(p: InputPackageSpec) -> Seq<(PackageItemSpec, PackageItemKind)> {
    Seq::new(p.required@.len(), |i: int| (p.required@[i], PackageItemKind::Required)) + Seq::new(
        p.optional@.len(),
        |i: int| (p.optional@[i], PackageItemKind::Optional),
    )
}

impl InputPackageSpec {
    pub fn new(name: &str) -> (r: InputPackageSpec)
        ensures
            r.name@ == name@,
            r.required@.len() == 0,
            r.optional@.len() == 0,
    {
        InputPackageSpec { name: owned(name), required: Vec::new(), optional: Vec::new() }
    }

    pub fn required(self, name: &str, query: MessageQuery, cardinality: Cardinality) -> (r: InputPackageSpec)
        ensures
            r.name@ == self.name@,
            r.optional@ == self.optional@,
            r.required@.len() == self.required@.len() + 1,
            r.required@.drop_last() == self.required@,
            r.required@.last().name@ == name@ && r.required@.last().query == query && r.required@.last().cardinality == cardinality,
    {
        let mut p = self;
        p.required.push(PackageItemSpec::new(name, query, cardinality));
        p
    }

    pub fn optional(self, name: &str, query: MessageQuery, cardinality: Cardinality) -> (r: InputPackageSpec)
        ensures
            r.name@ == self.name@,
            r.required@ == self.required@,
            r.optional@.len() == self.optional@.len() + 1,
            r.optional@.drop_last() == self.optional@,
            r.optional@.last().name@ == name@ && r.optional@.last().query == query && r.optional@.last().cardinality == cardinality,
    {
        let mut p = self;
        p.optional.push(PackageItemSpec::new(name, query, cardinality));
        p
    }

    /// The first required item of that name, else the first optional one.
    pub fn item(&self, name: &str) -> (r: Option<(&PackageItemSpec, PackageItemKind)>)
        ensures
            match r {
                Some((it, kind)) => it.name@ == name@ && (kind == PackageItemKind::Required ==> exists|i: int|
                    0 <= i < self.required@.len() && self.required@[i] == *it && forall|j: int| 0 <= j < i ==> self.required@[j].name@ != name@)
                    && (kind == PackageItemKind::Optional ==> (forall|j: int| 0 <= j < self.required@.len() ==> self.required@[j].name@ != name@)
                    && exists|i: int| 0 <= i < self.optional@.len() && self.optional@[i] == *it && forall|j: int| 0 <= j < i ==> self.optional@[j].name@ != name@),
                None => (forall|j: int| 0 <= j < self.required@.len() ==> self.required@[j].name@ != name@) && forall|j: int|
                    0 <= j < self.optional@.len() ==> self.optional@[j].name@ != name@,
            },
    {
        let mut i: usize = 0;
        while i < self.required.len()
            invariant
                i <= self.required.len(),
                forall|j: int| 0 <= j < i ==> self.required@[j].name@ != name@,
            decreases self.required.len() - i,
        {
            if str_eq(self.required[i].name.as_str(), name) {
                return Some((&self.required[i], PackageItemKind::Required));
            }
            i += 1;
        }
        let mut i: usize = 0;
        while i < self.optional.len()
            invariant
                i <= self.optional.len(),
                forall|j: int| 0 <= j < self.required@.len() ==> self.required@[j].name@ != name@,
                forall|j: int| 0 <= j < i ==> self.optional@[j].name@ != name@,
            decreases self.optional.len() - i,
        {
            if str_eq(self.optional[i].name.as_str(), name) {
                return Some((&self.optional[i], PackageItemKind::Optional));
            }
            i += 1;
        }
        None
    }
}

/// A tool node: calls `tool_name` with the call found in `call_item`, writing to
/// `result_port`.
#[derive(Debug, Clone, PartialEq, Eq)]
pub struct ToolNodeSpec {
    pub tool_name: String,
    pub call_item: String,
    pub result_port: String,
}

impl ToolNodeSpec {
    pub fn new(tool_name: &str, call_item: &str, result_port: &str) -> (r: ToolNodeSpec)
        ensures
            r.tool_name@ == tool_name@ && r.call_item@ == call_item@ && r.result_port@ == result_port@,
    {
        ToolNodeSpec { tool_name: owned(tool_name), call_item: owned(call_item), result_port: owned(result_port) }
    }
}

#[derive(Debug, Clone, PartialEq, Eq)]
pub enum GraphRef {
    SelfGraph,
    Named(String),
}

#[derive(Debug, Clone, PartialEq, Eq)]
pub struct AgentNodeSpec {
    pub agent_name: String,
    pub graph: GraphRef,
}

impl AgentNodeSpec {
    /// An agent node on the graph it stands in.
    pub fn new(agent_name: &str) -> (r: AgentNodeSpec)
        ensures
            r.agent_name@ == agent_name@ && r.graph == GraphRef::SelfGraph,
    {
        AgentNodeSpec { agent_name: owned(agent_name), graph: GraphRef::SelfGraph }
    }

    pub fn with_graph(self, graph: GraphRef) -> (r: AgentNodeSpec)
        ensures
            r.agent_name == self.agent_name && r.graph == graph,
    {
        let mut a = self;
        a.graph = graph;
        a
    }
}

#[derive(Debug, Clone, PartialEq)]
pub enum NodeKind {
    Transform { executor: String, config: Json },
    Tool(ToolNodeSpec),
    Agent(AgentNodeSpec),
    Graph { graph_name: String },
    Final,
}

/// Groups activations by the hash of an item's first match.
#[derive(Debug, Clone, PartialEq, Eq, PartialOrd, Ord)]
pub struct ConcurrencyKey {
    pub item: String,
}

impl ConcurrencyKey {
    pub fn package_item(item: &str) -> (r: ConcurrencyKey)
        ensures
            r.item@ == item@,
    {
        ConcurrencyKey { item: owned(item) }
    }
}

/// How many attempts of a node may run at once.
#[derive(Debug, Clone, PartialEq, Eq)]
pub enum NodeConcurrency {
    Serial,
    Parallel { max: usize },
    ByKey { key: ConcurrencyKey, max_per_key: usize },
}

impl Default for NodeConcurrency {
    fn default() -> (r: NodeConcurrency)
        ensures
            r == NodeConcurrency::Serial,
    {
        NodeConcurrency::Serial
    }
}

/// A node of a package graph.
#[derive(Debug, Clone, PartialEq)]
pub struct NodeSpec {
    pub id: String,
    pub kind: NodeKind,
    pub input: InputPackageSpec,
    pub outputs: Vec<String>,
    pub concurrency: NodeConcurrency,
}

impl View for NodeSpec {
    type V = NodeSpec;

    open spec fn view(&self) -> NodeSpec {
        *self
    }
}

impl NodeSpec {
    pub fn new(id: &str, kind: NodeKind, input: InputPackageSpec) -> (r: NodeSpec)
        ensures
            r.id@ == id@ && r.kind == kind && r.input == input && r.outputs@.len() == 0 && r.concurrency == NodeConcurrency::Serial,
    {
        NodeSpec { id: owned(id), kind, input, outputs: Vec::new(), concurrency: NodeConcurrency::Serial }
    }

    pub fn id(&self) -> (r: &str)
        ensures
            r@ == self.id@,
    {
        self.id.as_str()
    }

    pub fn agent(id: &str, agent_name: &str, input: InputPackageSpec) -> (r: NodeSpec)
        ensures
            r.id@ == id@ && r.input == input && r.outputs@.len() == 0 && r.concurrency == NodeConcurrency::Serial,
            r.kind matches NodeKind::Agent(a) && a.agent_name@ == agent_name@ && a.graph == GraphRef::SelfGraph,
    {
        NodeSpec::new(id, NodeKind::Agent(AgentNodeSpec::new(agent_name)), input)
    }

    pub fn tool(id: &str, tool_name: &str, call_item: &str, result_port: &str, input: InputPackageSpec) -> (r: NodeSpec)
        ensures
            r.id@ == id@ && r.input == input && r.outputs@.len() == 0 && r.concurrency == NodeConcurrency::Serial,
            r.kind matches NodeKind::Tool(t) && t.tool_name@ == tool_name@ && t.call_item@ == call_item@ && t.result_port@ == result_port@,
    {
        NodeSpec::new(id, NodeKind::Tool(ToolNodeSpec::new(tool_name, call_item, result_port)), input)
    }

    pub fn final_node(id: &str, input: InputPackageSpec) -> (r: NodeSpec)
        ensures
            r.id@ == id@ && r.input == input && r.outputs@.len() == 0 && r.concurrency == NodeConcurrency::Serial,
            r.kind == NodeKind::Final,
    {
        NodeSpec::new(id, NodeKind::Final, input)
    }

    pub fn output(self, port: &str) -> (r: NodeSpec)
        ensures
            r.id == self.id && r.kind == self.kind && r.input == self.input && r.concurrency == self.concurrency,
            r.outputs@.len() == self.outputs@.len() + 1,
            r.outputs@.drop_last() == self.outputs@,
            r.outputs@.last()@ == port@,
    {
        let mut n = self;
        n.outputs.push(owned(port));
        n
    }

    pub fn concurrency(self, concurrency: NodeConcurrency) -> (r: NodeSpec)
        ensures
            r.id == self.id && r.kind == self.kind && r.input == self.input && r.outputs == self.outputs,
            r.concurrency == concurrency,
    {
        let mut n = self;
        n.concurrency = concurrency;
        n
    }
}

/// The mathematical value of a [`GraphSpec`] or a [`GraphSpecBuilder`].
pub struct GraphSpecV {
    pub name: Seq<char>,
    /// Nodes by id, in id order.
    pub nodes: Seq<(Seq<char>, NodeSpec)>,
    pub edges: Seq<GraphEdge>,
    pub input: OutputRef,
    pub finish_node: Option<Seq<char>>,
}

pub open spec fn spec_has_node(nodes: Seq<(Seq<char>, NodeSpec)>, id: Seq<char>) -> bool {
    assoc_get(nodes, id) is Some
}

/// Node maps keyed by each node's own id.
pub open spec fn spec_nodes_keyed(nodes: Seq<(Seq<char>, NodeSpec)>) -> bool {
    &&& assoc_sorted(nodes)
    &&& forall|i: int| 0 <= i < nodes.len() ==> (#[trigger] nodes[i]).0 == nodes[i].1.id@
}

/// The refusal for the first edge whose source, target or target package is missing.
pub open spec fn spec_edge_error(edges: Seq<GraphEdge>, nodes: Seq<(Seq<char>, NodeSpec)>, input: OutputRef) -> Option<Seq<char>>
    decreases edges.len(),
{
    if edges.len() == 0 {
        None
    } else {
        let e = edges[0];
        if e.from.node@ != input.node@ && !spec_has_node(nodes, e.from.node@) {
            Some("edge "@ + e.id@ + " source node not found: "@ + e.from.node@)
        } else if !spec_has_node(nodes, e.to.node@) {
            Some("edge "@ + e.id@ + " target node not found: "@ + e.to.node@)
        } else if assoc_get(nodes, e.to.node@)->0.input.name@ != e.to.package@ {
            Some("edge "@ + e.id@ + " target package not found: "@ + e.to.node@ + "."@ + e.to.package@)
        } else {
            spec_edge_error(edges.drop_first(), nodes, input)
        }
    }
}

/// Why a builder does not make a graph spec; `None` when it does.
pub open spec fn spec_build_error(b: GraphSpecV) -> Option<Seq<char>> {
    if is_blank(b.name) {
        Some("graph runtime spec name must not be empty"@)
    } else if spec_edge_error(b.edges, b.nodes, b.input) is Some {
        spec_edge_error(b.edges, b.nodes, b.input)
    } else if b.finish_node matches Some(f) && !spec_has_node(b.nodes, f) {
        Some("finish node not found: "@ + b.finish_node->0)
    } else {
        None
    }
}

impl GraphSpecV {
    pub open spec fn wf(self) -> bool {
        &&& !is_blank(self.name)
        &&& spec_nodes_keyed(self.nodes)
        &&& spec_edge_error(self.edges, self.nodes, self.input) is None
        &&& (self.finish_node matches Some(f) ==> spec_has_node(self.nodes, f))
    }
}

pub open spec fn opt_str(o: Option<String>) -> Option<Seq<char>> {
    match o {
        Some(s) => Some(s@),
        None => None,
    }
}

/// A checked package graph.
#[derive(Debug, Clone)]
pub struct GraphSpec {
    name: String,
    nodes: Vec<(String, NodeSpec)>,
    edges: Vec<GraphEdge>,
    input: OutputRef,
    finish_node: Option<String>,
}

impl GraphSpec {
    pub closed spec fn view(&self) -> GraphSpecV {
        GraphSpecV {
            name: self.name@,
            nodes: pairs_view(self.nodes@),
            edges: self.edges@,
            input: self.input,
            finish_node: opt_str(self.finish_node),
        }
    }

    pub open spec fn wf(&self) -> bool {
        self.view().wf()
    }

    pub fn builder(name: &str) -> (r: GraphSpecBuilder)
        ensures
            r.wf(),
            r.view().name == name@,
            r.view().nodes.len() == 0,
            r.view().edges.len() == 0,
            r.view().input.node@ == "input"@ && r.view().input.port@ == "messages"@,
            r.view().finish_node is None,
    {
        GraphSpecBuilder::new(name)
    }

    pub fn name(&self) -> (r: &str)
        ensures
            r@ == self.view().name,
    {
        self.name.as_str()
    }

    pub fn node(&self, node_id: &str) -> (r: Option<&NodeSpec>)
        ensures
            match r {
                Some(n) => assoc_get(self.view().nodes, node_id@) == Some(*n),
                None => assoc_get(self.view().nodes, node_id@) is None,
            },
    {
        assoc_find(&self.nodes, node_id)
    }

    pub fn nodes(&self) -> (r: &Vec<(String, NodeSpec)>)
        ensures
            pairs_view(r@) == self.view().nodes,
    {
        &self.nodes
    }

    pub fn edges(&self) -> (r: &Vec<GraphEdge>)
        ensures
            r@ == self.view().edges,
    {
        &self.edges
    }

    pub fn input(&self) -> (r: &OutputRef)
        ensures
            *r == self.view().input,
    {
        &self.input
    }

    pub fn finish_node(&self) -> (r: Option<&str>)
        ensures
            match r {
                Some(f) => self.view().finish_node == Some(f@),
                None => self.view().finish_node is None,
            },
    {
        match &self.finish_node {
            Some(f) => Some(f.as_str()),
            None => None,
        }
    }
}

/// Collects nodes and edges and checks them into a [`GraphSpec`].
#[derive(Debug, Clone)]
pub struct GraphSpecBuilder {
    name: String,
    nodes: Vec<(String, NodeSpec)>,
    edges: Vec<GraphEdge>,
    input: OutputRef,
    finish_node: Option<String>,
}

impl GraphSpecBuilder {
    pub closed spec fn view(&self) -> GraphSpecV {
        GraphSpecV {
            name: self.name@,
            nodes: pairs_view(self.nodes@),
            edges: self.edges@,
            input: self.input,
            finish_node: opt_str(self.finish_node),
        }
    }

    pub closed spec fn wf(&self) -> bool {
        spec_nodes_keyed(self.view().nodes)
    }

    /// An empty builder reading the graph input from `input.messages`.
    pub fn new(name: &str) -> (r: GraphSpecBuilder)
        ensures
            r.wf(),
            r.view().name == name@,
            r.view().nodes.len() == 0,
            r.view().edges.len() == 0,
            r.view().input.node@ == "input"@ && r.view().input.port@ == "messages"@,
            r.view().finish_node is None,
    {
        let b = GraphSpecBuilder {
            name: owned(name),
            nodes: Vec::new(),
            edges: Vec::new(),
            input: OutputRef::new("input", "messages"),
            finish_node: None,
        };
        assert(pairs_view(b.nodes@) =~= Seq::<(Seq<char>, NodeSpec)>::empty());
        b
    }

    pub fn input(self, node: &str, port: &str) -> (r: GraphSpecBuilder)
        requires
            self.wf(),
        ensures
            r.wf(),
            r.view().input.node@ == node@ && r.view().input.port@ == port@,
            r.view().name == self.view().name && r.view().nodes == self.view().nodes && r.view().edges == self.view().edges,
            r.view().finish_node == self.view().finish_node,
    {
        let mut b = self;
        b.input = OutputRef::new(node, port);
        b
    }

    /// Adds a node, replacing any node with the same id.
    pub fn node(self, node: NodeSpec) -> (r: GraphSpecBuilder)
        requires
            self.wf(),
        ensures
            r.wf(),
            r.view().nodes == assoc_insert(self.view().nodes, node.id@, node),
            r.view().name == self.view().name && r.view().edges == self.view().edges && r.view().input == self.view().input,
            r.view().finish_node == self.view().finish_node,
    {
        let mut b = self;
        let id = dup_string(&node.id);
        let ghost before = pairs_view(b.nodes@);
        let ghost nv = node;
        assoc_set(&mut b.nodes, id.as_str(), node);
        proof {
            let after = pairs_view(b.nodes@);
            assert forall|i: int| 0 <= i < after.len() implies (#[trigger] after[i]).0 == after[i].1.id@ by {
                crate::assoc::lemma_assoc_get_at(after, i);
                crate::assoc::lemma_assoc_get_insert(before, id@, nv, after[i].0);
                if after[i].0 != id@ {
                    crate::assoc::lemma_assoc_get_index(before, after[i].0);
                }
            }
        }
        b
    }

    pub fn edge(self, id: &str, from: (&str, &str), to: (&str, &str)) -> (r: GraphSpecBuilder)
        requires
            self.wf(),
        ensures
            r.wf(),
            r.view().edges.len() == self.view().edges.len() + 1,
            r.view().edges.drop_last() == self.view().edges,
            r.view().edges.last().id@ == id@,
            r.view().edges.last().from.node@ == from.0@ && r.view().edges.last().from.port@ == from.1@,
            r.view().edges.last().to.node@ == to.0@ && r.view().edges.last().to.package@ == to.1@,
            r.view().name == self.view().name && r.view().nodes == self.view().nodes && r.view().input == self.view().input,
            r.view().finish_node == self.view().finish_node,
    {
        let mut b = self;
        b.edges.push(GraphEdge::new(id, from, to));
        b
    }

    pub fn finish_at(self, node_id: &str) -> (r: GraphSpecBuilder)
        requires
            self.wf(),
        ensures
            r.wf(),
            r.view().finish_node == Some(node_id@),
            r.view().name == self.view().name && r.view().nodes == self.view().nodes && r.view().edges == self.view().edges,
            r.view().input == self.view().input,
    {
        let mut b = self;
        b.finish_node = Some(owned(node_id));
        b
    }

    /// Checks the spec: a non-blank name; each edge's source is the graph input or a node, its
    /// target a node whose package has the edge's package name; the finish node, if any, is a
    /// node.
    pub fn build(self) -> (r: AgentCoreResult<GraphSpec>)
        requires
            self.wf(),
        ensures
            match spec_build_error(self.view()) {
                Some(t) => r matches Err(AgentCoreError::InvalidConfig(s)) && s@ == t,
                None => r matches Ok(g) && g.view() == self.view() && g.wf(),
            },
    {
        let ghost b = self.view();
        if str_is_blank(self.name.as_str()) {
            return Err(AgentCoreError::InvalidConfig(owned("graph runtime spec name must not be empty")));
        }
        proof {
            assert(b.edges.subrange(0, b.edges.len() as int) =~= b.edges);
        }
        let mut i: usize = 0;
        while i < self.edges.len()
            invariant
                i <= self.edges.len(),
                b == self.view(),
                !is_blank(b.name),
                spec_edge_error(b.edges, b.nodes, b.input) == spec_edge_error(b.edges.subrange(i as int, b.edges.len() as int), b.nodes, b.input),
            decreases self.edges.len() - i,
        {
            let ghost sub = b.edges.subrange(i as int, b.edges.len() as int);
            assert(sub[0] == b.edges[i as int]);
            let e = &self.edges[i];
            if !str_eq(e.from.node.as_str(), self.input.node.as_str()) && !assoc_contains(&self.nodes, e.from.node.as_str()) {
                let mut t = owned("edge ");
                t.append(e.id.as_str());
                t.append(" source node not found: ");
                t.append(e.from.node.as_str());
                return Err(AgentCoreError::InvalidConfig(t));
            }
            match assoc_find(&self.nodes, e.to.node.as_str()) {
                None => {
                    let mut t = owned("edge ");
                    t.append(e.id.as_str());
                    t.append(" target node not found: ");
                    t.append(e.to.node.as_str());
                    return Err(AgentCoreError::InvalidConfig(t));
                },
                Some(target) => {
                    if !str_eq(target.input.name.as_str(), e.to.package.as_str()) {
                        let mut t = owned("edge ");
                        t.append(e.id.as_str());
                        t.append(" target package not found: ");
                        t.append(e.to.node.as_str());
                        t.append(".");
                        t.append(e.to.package.as_str());
                        return Err(AgentCoreError::InvalidConfig(t));
                    }
                },
            }
            assert(sub.drop_first() =~= b.edges.subrange(i + 1, b.edges.len() as int));
            i += 1;
        }
        proof {
            assert(b.edges.subrange(i as int, b.edges.len() as int).len() == 0);
        }
        match &self.finish_node {
            Some(f) => {
                if !assoc_contains(&self.nodes, f.as_str()) {
                    let mut t = owned("finish node not found: ");
                    t.append(f.as_str());
                    return Err(AgentCoreError::InvalidConfig(t));
                }
            },
            None => {},
        }
        let GraphSpecBuilder { name, nodes, edges, input, finish_node } = self;
        Ok(GraphSpec { name, nodes, edges, input, finish_node })
    }
}

} // verus!
