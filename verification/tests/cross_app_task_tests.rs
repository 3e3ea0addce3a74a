use agent_core::app_map::{sample_cross_app_map, AppMapMemory, ForgetScope};
use agent_core::cross_app_task::{long_task_step_result, run_hundred_step_cross_app_task, CrossAppTaskReport};
use agent_core::tool::ToolResult;
use agent_core::json::parse_text;
use agent_core::mobile_prompt::MobileRunLikeConfig;
use agent_core::mobile_tools::register_mobilerun_tools;
use agent_core::tool_registry::{ToolExecutor, ToolRegistry};
use std::sync::Arc;

fn token_savings_percent(report: &CrossAppTaskReport) -> f64 {
    if report.full_map_token_total == 0 {
        0.0
    } else {
        let saved = report.full_map_token_total.saturating_sub(report.local_view_token_total);
        saved as f64 * 100.0 / report.full_map_token_total as f64
    }
}

fn run_task() -> CrossAppTaskReport {
    let config = MobileRunLikeConfig::boundary_default();
    let definition = config.agent_definition().unwrap();
    let mut registry = ToolRegistry::new();
    register_mobilerun_tools(&mut registry).unwrap();
    let executor = ToolExecutor::new(Arc::new(registry));
    run_hundred_step_cross_app_task(&executor, &definition).unwrap()
}

fn tool_count(report: &CrossAppTaskReport, name: &str) -> usize {
    report
        .executed_tools
        .iter()
        .find(|(tool, _)| tool == name)
        .map(|(_, count)| *count)
        .unwrap_or_default()
}

#[test]
fn completes_hundred_step_cross_app_task_with_map_reuse() {
    let report = run_task();

    assert!(report.completed);
    assert!(report.step_count >= 100);
    assert!(report.app_switches >= 30);
    assert!(report.map_reuse_hits >= 100);
    assert!(token_savings_percent(&report) > 20.0);
    assert_eq!(tool_count(&report, "complete"), 1);
}

#[test]
fn cross_app_report_agrees_with_its_steps() {
    let report = run_task();

    assert_eq!(report.steps.len(), report.step_count);
    for (i, step) in report.steps.iter().enumerate() {
        assert_eq!(step.index, i + 1);
    }
    let local: usize = report.steps.iter().map(|s| s.local_view_tokens).sum();
    let full: usize = report.steps.iter().map(|s| s.full_map_tokens).sum();
    assert_eq!(report.local_view_token_total, local);
    assert_eq!(report.full_map_token_total, full);
    let counted: usize = report.executed_tools.iter().map(|(_, c)| *c).sum();
    assert_eq!(counted, report.step_count);
    assert_eq!(report.semantic_searches, 10);
    assert_eq!(report.repeated_exploration_avoided, report.map_reuse_hits);
    assert_eq!(report.steps.last().unwrap().tool, "complete");
    assert_eq!(tool_count(&report, "type"), 30);
    assert_eq!(tool_count(&report, "ui_state"), 10);
    assert!(report.step_count >= 101);
    assert!(report.map_reuse_hits >= 131);
}

fn detail(report: &CrossAppTaskReport) -> String {
    format!(
        "completed={}, steps={}, app_switches={}, semantic_searches={}, map_reuse_hits={}, token_savings={:.1}%",
        report.completed,
        report.step_count,
        report.app_switches,
        report.semantic_searches,
        report.map_reuse_hits,
        token_savings_percent(report)
    )
}

#[test]
fn app_map_and_hundred_step_task_public_api_contract() {
    let mut map = AppMapMemory::new();
    let observed = map
        .observe_ui_state(
            &parse_text(
                r#"{
                "package": "com.example.shop",
                "nodes": [
                    {"text": "Search", "class": "android.widget.EditText", "clickable": true, "editable": true},
                    {"text": "Orders", "class": "android.widget.Button", "clickable": true}
                ]
            }"#,
            )
            .unwrap(),
            Some("find orders"),
        )
        .unwrap();
    assert!(observed.created);
    assert_eq!(map.page_count(), 1);
    assert!(map.current_page().is_some());
    assert!(!observed.candidate_actions.is_empty());
    assert_eq!(observed.candidate_actions[0].to_tool_call("map-call").call_id, "map-call");

    let mut cross_app_map = sample_cross_app_map().unwrap();
    let home = cross_app_map.current_page().unwrap().to_string();
    let hit = cross_app_map.semantic_search("Share", 1).remove(0);
    let path = cross_app_map.plan_path(&home, &hit.page_id).unwrap();
    assert_eq!(path.len(), 2);
    let view = cross_app_map.local_view(Some(&home), 1, Some("Share"));
    assert!(AppMapMemory::estimate_context_tokens(&view) < cross_app_map.estimate_full_map_tokens());
    let first_page = cross_app_map.pages()[0].id.clone();
    assert!(cross_app_map.mark_page_stale(&first_page));
    assert_eq!(cross_app_map.forget(ForgetScope::Stale), 1);
    assert!(cross_app_map.transition_count() <= 3);

    let report = run_task();
    assert!(report.completed);
    assert!(report.step_count >= 100);
    assert!(report.map_reuse_hits >= 100);
    assert!(detail(&report).contains("completed=true"));
}

#[test]
fn checked_token_estimates_match_the_plain_ones() {
    let map = sample_cross_app_map().unwrap();
    let home = map.current_page().unwrap().to_string();
    let view = map.local_view(Some(&home), 1, None);
    assert_eq!(
        AppMapMemory::try_estimate_context_tokens(&view),
        Some(AppMapMemory::estimate_context_tokens(&view))
    );
    assert_eq!(map.try_estimate_full_map_tokens(), Some(map.estimate_full_map_tokens()));
}

#[test]
fn long_task_steps_pass_errors_and_name_unsuccessful_tools() {
    assert!(long_task_step_result(Ok(ToolResult::success("c", "type", agent_core::json::Json::Null)), "type").is_ok());
    match long_task_step_result(Ok(ToolResult::denied("c", "type", "no")), "type") {
        Err(agent_core::error::AgentCoreError::Recoverable(t)) => assert_eq!(t, "tool `type` failed in long task"),
        _ => panic!("a denied call passed"),
    }
    match long_task_step_result(Err(agent_core::error::AgentCoreError::NotFound("tool".to_string())), "type") {
        Err(agent_core::error::AgentCoreError::NotFound(t)) => assert_eq!(t, "tool"),
        _ => panic!("the executor's error changed"),
    }
}

#[test]
fn replacing_an_empty_pattern_puts_the_text_around_every_character() {
    assert_eq!(agent_core::text::replace_str("ab", "", "-"), "ab".replace("", "-"));
    assert_eq!(agent_core::text::replace_str("", "", "-"), "-");
    assert_eq!(agent_core::text::replace_str("a b c", " ", "-"), "a-b-c");
}
