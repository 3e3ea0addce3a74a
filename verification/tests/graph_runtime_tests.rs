use agent_core::error::AgentCoreResult;
use agent_core::graph_engine::{GraphRuntime, RunStep, RunningResult};
use agent_core::graph_query::MessageQuery;
use agent_core::graph_runtime::{GraphRunInput, GraphRunOutput, GraphRunStatus, NodeInput, NodeOutput};
use agent_core::graph_spec::{Cardinality, GraphSpec, InputPackageSpec, NodeConcurrency, NodeKind, NodeSpec};
use agent_core::json::{parse_text, Json};
use agent_core::message::{ContentBlock, RunMessage};

fn json(text: &str) -> Json {
    parse_text(text).unwrap()
}

fn text_message(text: &str) -> RunMessage {
    RunMessage::user(vec![ContentBlock::text(text)]).unwrap()
}

fn assistant_message(text: &str) -> RunMessage {
    RunMessage::assistant(vec![ContentBlock::text(text)]).unwrap()
}

/// What the recording executor answers for a node.
fn recording_output(node: &NodeSpec, input: &NodeInput) -> AgentCoreResult<NodeOutput> {
    Ok(match &node.kind {
        NodeKind::Final => NodeOutput::new(),
        NodeKind::Tool(spec) => NodeOutput::new().with_message(
            &spec.result_port,
            RunMessage::tool(vec![ContentBlock::tool_result(
                "call",
                Some(spec.tool_name.clone()),
                json(r#"{"ok": true}"#),
                false,
            )])?,
        ),
        NodeKind::Agent(_) => {
            let has_result = input
                .optional
                .iter()
                .any(|(name, matches)| name == "tool_result" && !matches.is_empty());
            if has_result {
                NodeOutput::new().with_message("final", assistant_message("done"))
            } else {
                NodeOutput::new().with_message(
                    "tool_calls",
                    RunMessage::assistant(vec![ContentBlock::tool_call("call", "tap", json(r#"{"x": 1}"#))])?,
                )
            }
        }
        _ => NodeOutput::new().with_message("out", assistant_message("ok")),
    })
}

/// Runs a graph on this thread. Each started node is answered by `execute`; a node named in
/// `slow` answers only after one more round, as a future that yields once would.
fn drive(
    graph: GraphSpec,
    input: GraphRunInput,
    execute: &dyn Fn(&NodeSpec, &NodeInput) -> AgentCoreResult<NodeOutput>,
    slow: &[&str],
) -> GraphRunOutput {
    let mut runtime = GraphRuntime::new(graph);
    let max_ticks = input.max_ticks;
    runtime.start(input);
    let mut running: Vec<(usize, RunningResult)> = Vec::new();
    let mut ticks = 0usize;
    loop {
        let (step, started) = runtime.tick(ticks, max_ticks).unwrap();
        for attempt in started {
            let delay = if slow.contains(&attempt.node.id.as_str()) { 1 } else { 0 };
            let output = execute(&attempt.node, &attempt.input);
            running.push((
                delay,
                RunningResult {
                    attempt_id: attempt.context.attempt_id,
                    node_id: attempt.node.id.clone(),
                    package_version: attempt.package_version,
                    concurrency_key: attempt.concurrency_key,
                    output,
                },
            ));
        }
        if let RunStep::Finish(status, error) = step {
            return runtime.finish(status, error);
        }
        ticks += 1;
        let mut ready = None;
        while !running.is_empty() && ready.is_none() {
            if let Some(i) = running.iter().position(|(delay, _)| *delay == 0) {
                ready = Some(running.remove(i).1);
            } else {
                for entry in running.iter_mut() {
                    entry.0 -= 1;
                }
            }
        }
        if let Some(result) = ready {
            if let RunStep::Finish(status, error) = runtime.after_result(result) {
                return runtime.finish(status, error);
            }
            continue;
        }
        if let RunStep::Finish(status, error) = runtime.idle_step() {
            return runtime.finish(status, error);
        }
    }
}

fn package_items(output: &GraphRunOutput, node: &str, package: &str) -> Vec<String> {
    output
        .state
        .package_states
        .iter()
        .find(|p| p.node == node && p.package == package)
        .unwrap()
        .items
        .iter()
        .map(|(name, _)| name.clone())
        .collect()
}

#[test]
fn filtered_message_does_not_update_package() {
    let graph = GraphSpec::builder("filtered")
        .node(
            NodeSpec::new(
                "target",
                NodeKind::Final,
                InputPackageSpec::new("input").required(
                    "instruction",
                    MessageQuery::where_eq("metadata.kind", Json::str_of("instruction")),
                    Cardinality::Latest,
                ),
            )
            .output("done"),
        )
        .edge("input_to_target", ("input", "messages"), ("target", "input"))
        .finish_at("target")
        .build()
        .unwrap();

    let output = drive(graph, GraphRunInput::new(vec![text_message("ignored")]), &recording_output, &[]);

    assert_eq!(output.status, GraphRunStatus::Drained);
    let package = output
        .state
        .package_states
        .iter()
        .find(|p| p.node == "target" && p.package == "input")
        .unwrap();
    assert_eq!(package.version, 0);
    assert!(output.ledger.transfers.is_empty());
}

#[test]
fn any_update_is_required_latest_item() {
    let graph = GraphSpec::builder("any")
        .node(
            NodeSpec::final_node(
                "target",
                InputPackageSpec::new("input").required("turn", MessageQuery::any(), Cardinality::Latest),
            )
            .output("done"),
        )
        .edge("input_to_target", ("input", "messages"), ("target", "input"))
        .finish_at("target")
        .build()
        .unwrap();

    let output = drive(graph, GraphRunInput::new(vec![text_message("go")]), &recording_output, &[]);

    assert_eq!(output.status, GraphRunStatus::Completed);
    assert_eq!(output.ledger.transfers.len(), 1);
    assert_eq!(output.ledger.node_attempts.len(), 1);
}

#[test]
fn message_version_change_without_selected_field_change_does_not_activate_twice() {
    let first = RunMessage::user(vec![ContentBlock::text("same")]).unwrap().with_metadata("ignored", json("1"));
    let second = first.clone().with_metadata("ignored", json("2"));

    let graph = GraphSpec::builder("selected")
        .node(
            NodeSpec::final_node(
                "target",
                InputPackageSpec::new("input").required(
                    "text",
                    MessageQuery::where_exists("content[*].text").select(vec!["content[*].text".to_string()]),
                    Cardinality::Latest,
                ),
            )
            .output("done"),
        )
        .edge("input_to_target", ("input", "messages"), ("target", "input"))
        .finish_at("target")
        .build()
        .unwrap();

    let output = drive(graph, GraphRunInput::new(vec![first, second]), &recording_output, &[]);

    assert_eq!(output.status, GraphRunStatus::Completed);
    assert_eq!(output.ledger.transfers.len(), 1);
    assert_eq!(output.ledger.node_attempts.len(), 1);
}

#[test]
fn package_requires_all_required_items_and_keeps_optional() {
    let instruction = RunMessage::user(vec![ContentBlock::text("do")])
        .unwrap()
        .with_metadata("kind", Json::str_of("instruction"));
    let observation = RunMessage::tool(vec![ContentBlock::tool_result(
        "call",
        Some("state".to_string()),
        json(r#"{"screen": "home"}"#),
        false,
    )])
    .unwrap();

    let graph = GraphSpec::builder("package")
        .node(NodeSpec::final_node(
            "target",
            InputPackageSpec::new("input")
                .required(
                    "instruction",
                    MessageQuery::where_eq("metadata.kind", Json::str_of("instruction")),
                    Cardinality::Latest,
                )
                .required(
                    "observation",
                    MessageQuery::where_eq("content[*].type", Json::str_of("tool_result")),
                    Cardinality::Latest,
                )
                .optional("text", MessageQuery::where_exists("content[*].text"), Cardinality::Latest),
        ))
        .edge("input_to_target", ("input", "messages"), ("target", "input"))
        .finish_at("target")
        .build()
        .unwrap();

    let output = drive(graph, GraphRunInput::new(vec![instruction, observation]), &recording_output, &[]);

    assert_eq!(output.status, GraphRunStatus::Completed);
    let items = package_items(&output, "target", "input");
    assert!(items.contains(&"instruction".to_string()));
    assert!(items.contains(&"observation".to_string()));
    assert!(items.contains(&"text".to_string()));
}

#[test]
fn react_graph_runs_agent_tool_agent_final_without_special_loop() {
    let graph = GraphSpec::builder("react")
        .node(
            NodeSpec::agent(
                "agent",
                "phone_agent",
                InputPackageSpec::new("context")
                    .required("turn", MessageQuery::any(), Cardinality::Latest)
                    .optional(
                        "tool_result",
                        MessageQuery::where_eq("content[*].type", Json::str_of("tool_result")),
                        Cardinality::Latest,
                    ),
            )
            .output("tool_calls")
            .output("final")
            .concurrency(NodeConcurrency::Serial),
        )
        .node(
            NodeSpec::tool(
                "tap_tool",
                "tap",
                "tool_call",
                "results",
                InputPackageSpec::new("calls").required(
                    "tool_call",
                    MessageQuery::where_eq("content[*].type", Json::str_of("tool_call")),
                    Cardinality::Latest,
                ),
            )
            .concurrency(NodeConcurrency::Parallel { max: 4 }),
        )
        .node(NodeSpec::final_node(
            "final",
            InputPackageSpec::new("answer").required(
                "final_answer",
                MessageQuery::where_exists("content[*].text"),
                Cardinality::Latest,
            ),
        ))
        .edge("input_to_agent", ("input", "messages"), ("agent", "context"))
        .edge("agent_to_tool", ("agent", "tool_calls"), ("tap_tool", "calls"))
        .edge("tool_to_agent", ("tap_tool", "results"), ("agent", "context"))
        .edge("agent_to_final", ("agent", "final"), ("final", "answer"))
        .finish_at("final")
        .build()
        .unwrap();

    let output = drive(graph, GraphRunInput::new(vec![text_message("tap something")]), &recording_output, &[]);

    assert_eq!(output.status, GraphRunStatus::Completed);
    assert!(output.ledger.node_attempts.iter().any(|attempt| attempt.node == "agent"));
    assert!(output.ledger.node_attempts.iter().any(|attempt| attempt.node == "tap_tool"));
    assert!(output.ledger.node_attempts.iter().any(|attempt| attempt.node == "final"));
}

#[test]
fn slow_node_future_does_not_block_independent_ready_node() {
    let package = || InputPackageSpec::new("input").required("turn", MessageQuery::any(), Cardinality::Latest);
    let graph = GraphSpec::builder("parallel")
        .node(NodeSpec::new(
            "slow",
            NodeKind::Transform { executor: "slow".to_string(), config: json("{}") },
            package(),
        ))
        .node(NodeSpec::new(
            "fast",
            NodeKind::Transform { executor: "fast".to_string(), config: json("{}") },
            package(),
        ))
        .edge("input_to_slow", ("input", "messages"), ("slow", "input"))
        .edge("input_to_fast", ("input", "messages"), ("fast", "input"))
        .build()
        .unwrap();

    let output = drive(
        graph,
        GraphRunInput::new(vec![text_message("go")]),
        &|_node: &NodeSpec, _input: &NodeInput| Ok(NodeOutput::new()),
        &["slow"],
    );

    assert_eq!(output.status, GraphRunStatus::Drained);
    assert_eq!(output.ledger.node_attempts.len(), 2);
    assert_eq!(output.ledger.node_attempts[0].node, "fast");
    assert_eq!(output.ledger.node_attempts[1].node, "slow");
}
