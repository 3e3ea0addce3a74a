use agent_core::app_map::{sample_cross_app_map, sanitize_token, AppMapMemory, CandidateActionKind, ForgetScope};
use agent_core::json::{parse_text, Json};

fn ui(text: &str) -> Json {
    parse_text(text).unwrap()
}

#[test]
fn records_page_nodes_and_candidates_from_ui_state() {
    let mut map = AppMapMemory::new();
    let update = map
        .observe_ui_state(
            &ui(r#"{
                "package": "com.example.settings",
                "nodes": [
                    {"text": "Account security", "class": "android.widget.Button", "clickable": true},
                    {"text": "Password", "class": "android.widget.EditText", "editable": true},
                    {"text": "Delete account", "class": "android.widget.Button", "clickable": true}
                ]
            }"#),
            Some("go to account security"),
        )
        .unwrap();

    assert!(update.created);
    assert_eq!(map.page_count(), 1);
    assert!(update
        .candidate_actions
        .iter()
        .any(|action| action.label == "Account security"));
    let page = map.pages()[0];
    assert_eq!(page.dangerous_actions[0].text, "Delete account");
}

#[test]
fn searches_places_and_returns_local_view_without_full_map() {
    let map = sample_cross_app_map().unwrap();
    let home = map.current_page().unwrap().to_string();
    let hit = map.semantic_search("Share", 1).remove(0);
    let path = map.plan_path(&home, &hit.page_id).unwrap();
    let view = map.local_view(Some(&home), 1, Some("Share"));

    assert_eq!(path.len(), 2);
    assert!(view.nodes.len() < map.page_count());
    assert!(AppMapMemory::estimate_context_tokens(&view) < map.estimate_full_map_tokens());
}

#[test]
fn forget_removes_pages_and_dependent_paths() {
    let mut map = sample_cross_app_map().unwrap();
    let removed = map.forget(ForgetScope::Query {
        query: "notes".to_string(),
    });

    assert_eq!(removed, 1);
    assert_eq!(map.transition_count(), 2);
    assert!(map.semantic_search("notes", 1).is_empty());
}

#[test]
fn failed_paths_become_stale_after_repeated_misses() {
    let mut map = sample_cross_app_map().unwrap();
    let from_page = map.transitions()[0].from_page.clone();
    let action_id = map.transitions()[0].action.id.clone();
    map.mark_transition_failed(&from_page, &action_id);
    map.mark_transition_failed(&from_page, &action_id);
    map.mark_transition_failed(&from_page, &action_id);

    assert!(map.transitions()[0].stale);
}

#[test]
fn stale_page_node_is_refreshed_by_next_matching_observation() {
    let mut map = AppMapMemory::new();
    let ui_state = ui(r#"{
        "package": "com.example.settings",
        "nodes": [
            {"text": "Account security", "class": "android.widget.Button", "clickable": true},
            {"text": "Password", "class": "android.widget.EditText", "editable": true}
        ]
    }"#);
    let first = map
        .observe_ui_state(&ui_state, Some("initial account security view"))
        .unwrap();

    assert!(map.mark_page_stale(&first.page_id));
    assert!(
        map.pages()
            .into_iter()
            .find(|page| page.id == first.page_id)
            .unwrap()
            .stale
    );

    let refreshed = map
        .observe_ui_state(&ui_state, Some("refreshed account security view"))
        .unwrap();

    assert_eq!(refreshed.page_id, first.page_id);
    assert!(!refreshed.created);
    assert!(refreshed.replaced_stale_node);
    assert!(
        !map.pages()
            .into_iter()
            .find(|page| page.id == first.page_id)
            .unwrap()
            .stale
    );
}

#[test]
fn sample_map_has_four_pages_and_three_working_transitions() {
    let map = sample_cross_app_map().unwrap();
    assert_eq!(map.page_count(), 4);
    assert_eq!(map.transition_count(), 3);
    assert!(map.transitions().iter().all(|t| !t.stale && t.success_count == 1));
    let first = &map.transitions()[0];
    assert_eq!(first.action.kind, CandidateActionKind::ClickText);
    let call = first.action.to_tool_call("call-1");
    assert_eq!(call.call_id, "call-1");
    assert_eq!(call.tool_name, "click_at");
    assert_eq!(call.arguments, ui(r#"{"x": 166, "y": 200}"#));
}

#[test]
fn screen_without_elements_is_refused_and_counted() {
    let mut map = AppMapMemory::new();
    let err = map.observe_ui_state(&ui(r#"{"package": "com.example.empty", "nodes": []}"#), None);
    assert!(err.is_err());
    assert_eq!(map.page_count(), 0);
}

#[test]
fn local_view_without_a_page_shows_nothing() {
    let map = AppMapMemory::new();
    let view = map.local_view(None, 2, None);
    assert!(view.current_page.is_none());
    assert!(view.nodes.is_empty());
    assert_eq!(view.omitted_node_count, 0);
    assert_eq!(AppMapMemory::estimate_context_tokens(&view), 1);
}

#[test]
fn tokens_are_a_quarter_of_the_text() {
    let map = sample_cross_app_map().unwrap();
    let home = map.current_page().unwrap().to_string();
    let view = map.local_view(Some(&home), 0, None);
    let chars: usize = view.nodes.iter().map(|n| n.summary.len()).sum::<usize>()
        + view.transitions.iter().map(|t| t.from_page.len() + t.to_page.len() + t.action.label.len()).sum::<usize>()
        + view.candidate_actions.iter().map(|a| a.label.len() + a.tool_name.len()).sum::<usize>();
    assert_eq!(AppMapMemory::estimate_context_tokens(&view), std::cmp::max(chars / 4, 1));
}

#[test]
fn sanitized_tokens_keep_letters_and_digits() {
    assert_eq!(sanitize_token("Order #2048!"), "order-2048");
}
