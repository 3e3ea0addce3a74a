//! Ready-made package graphs: the reason-and-act loop of an agent with a tool node, and a
//! single transform node.

use vstd::prelude::*;
use crate::assoc::{assoc_get, assoc_insert, lemma_assoc_get_insert};
use crate::error::{AgentCoreError, AgentCoreResult};
use crate::graph_query::MessageQuery;
use crate::graph_spec::{
    spec_build_error, spec_edge_error, spec_has_node, Cardinality, GraphSpec, GraphSpecBuilder, GraphSpecV, InputPackageSpec,
    NodeConcurrency, NodeKind, NodeSpec,
};
use crate::json::Json;
use crate::text::{is_blank, is_ws};

verus! {

/// The name of the default reason-and-act graph.
pub const DEFAULT_REACT_GRAPH: &'static str = "default_react";

proof fn lemma_name_not_blank()
    ensures
        !is_blank("default_react"@),
{
    reveal_strlit("default_react");
    assert(!is_ws("default_react"@[0]));
}

/// The default reason-and-act graph: the user's turn reaches the agent, the agent's tool
/// calls reach the tool node, tool results go back to the agent, and the agent's answer
/// reaches the final node, where the run finishes.
pub fn default_react_graph() -> (r: AgentCoreResult<GraphSpec>)
    ensures
        r matches Ok(g) && g.view().name == DEFAULT_REACT_GRAPH@ && g.view().finish_node == Some("final"@)
            && g.view().edges.len() == 4 && spec_has_node(g.view().nodes, "agent"@) && spec_has_node(g.view().nodes, "tool"@)
            && spec_has_node(g.view().nodes, "final"@) && g.view().nodes.len() == 3,
{
    let agent = NodeSpec::agent(
        "agent",
        "default_agent",
        InputPackageSpec::new("context").required("turn", MessageQuery::where_eq("role", Json::str_of("user")), Cardinality::Latest).optional(
            "tool_result",
            MessageQuery::where_eq("content[*].type", Json::str_of("tool_result")),
            Cardinality::Latest,
        ),
    ).output("tool_calls").output("final").concurrency(NodeConcurrency::Serial);
    let tool = NodeSpec::tool(
        "tool",
        "dispatch_tool_call",
        "tool_call",
        "results",
        InputPackageSpec::new("calls").required(
            "tool_call",
            MessageQuery::where_eq("content[*].type", Json::str_of("tool_call")),
            Cardinality::Latest,
        ),
    ).concurrency(NodeConcurrency::Parallel { max: 4 });
    let fin = NodeSpec::final_node(
        "final",
        InputPackageSpec::new("answer").required("assistant_answer", MessageQuery::where_exists("content[*].text"), Cardinality::Latest),
    );
    let ghost (av, tv, fv) = (agent, tool, fin);
    let b = GraphSpec::builder(DEFAULT_REACT_GRAPH).node(agent).node(tool).node(fin).edge(
        "input_to_agent",
        ("input", "messages"),
        ("agent", "context"),
    ).edge("agent_to_tool", ("agent", "tool_calls"), ("tool", "calls")).edge("tool_to_agent", ("tool", "results"), ("agent", "context")).edge(
        "agent_to_final",
        ("agent", "final"),
        ("final", "answer"),
    ).finish_at("final");
    proof {
        reveal_strlit("agent");
        reveal_strlit("tool");
        reveal_strlit("final");
        reveal_strlit("input");
        let bv = b.view();
        let n1 = assoc_insert(Seq::<(Seq<char>, NodeSpec)>::empty(), "agent"@, av);
        let n2 = assoc_insert(n1, "tool"@, tv);
        let n3 = assoc_insert(n2, "final"@, fv);
        assert(bv.nodes == n3);
        lemma_assoc_get_insert(Seq::<(Seq<char>, NodeSpec)>::empty(), "agent"@, av, "agent"@);
        lemma_assoc_get_insert(n1, "tool"@, tv, "agent"@);
        lemma_assoc_get_insert(n2, "final"@, fv, "agent"@);
        lemma_assoc_get_insert(n1, "tool"@, tv, "tool"@);
        lemma_assoc_get_insert(n2, "final"@, fv, "tool"@);
        lemma_assoc_get_insert(n2, "final"@, fv, "final"@);
        assert("agent"@ != "tool"@);
        assert("agent"@ != "final"@);
        assert("tool"@ != "final"@);
        assert(assoc_get(n3, "agent"@) == Some(av));
        assert(assoc_get(n3, "tool"@) == Some(tv));
        assert(assoc_get(n3, "final"@) == Some(fv));
        lemma_name_not_blank();
        let es = bv.edges;
        assert(es.len() == 4);
        assert(es.drop_first().drop_first().drop_first().drop_first().len() == 0);
        assert(spec_edge_error(es, bv.nodes, bv.input) is None) by {
            reveal_with_fuel(spec_edge_error, 5);
            assert(es.drop_first()[0] == es[1]);
            assert(es.drop_first().drop_first()[0] == es[2]);
            assert(es.drop_first().drop_first().drop_first()[0] == es[3]);
        }
        assert(spec_build_error(bv) is None);
        assert(n1.len() == 1);
        assert(n2.len() == 2) by {
            reveal_with_fuel(assoc_insert, 3);
            reveal_strlit("tool");
        }
        assert(n3.len() == 3) by {
            reveal_with_fuel(assoc_insert, 4);
        }
    }
    b.build()
}

/// A graph of one transform node fed by the graph input, where the run finishes.
pub fn single_node_graph(name: &str, node_id: &str) -> (r: AgentCoreResult<GraphSpec>)
    ensures
        is_blank(name@) ==> (r matches Err(AgentCoreError::InvalidConfig(t)) && t@ == "graph runtime spec name must not be empty"@),
        !is_blank(name@) ==> (r matches Ok(g) && g.view().name == name@ && g.view().finish_node == Some(node_id@)
            && g.view().edges.len() == 1 && spec_has_node(g.view().nodes, node_id@)),
{
    let node = NodeSpec::new(
        node_id,
        NodeKind::Transform { executor: crate::text::owned("single_node"), config: Json::new_object() },
        InputPackageSpec::new("input").required("turn", MessageQuery::any(), Cardinality::Latest),
    );
    let ghost nv = node;
    let b = GraphSpec::builder(name).node(node).edge("input_to_node", ("input", "messages"), (node_id, "input")).finish_at(node_id);
    proof {
        let bv = b.view();
        lemma_assoc_get_insert(Seq::<(Seq<char>, NodeSpec)>::empty(), node_id@, nv, node_id@);
        let es = bv.edges;
        assert(es.drop_first().len() == 0);
        assert(spec_edge_error(es, bv.nodes, bv.input) is None) by {
            reveal_with_fuel(spec_edge_error, 2);
        }
    }
    b.build()
}

} // verus!
