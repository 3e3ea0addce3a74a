//! A long task across apps, driven from an app map: ten orders are each looked up in the
//! shop, noted, put in the calendar and mailed, every step a tool call, with a report of
//! the steps taken and of the map reused.

use vstd::prelude::*;
use crate::app_map::{
    lowercase_text, sample_cross_app_map, screen, ui_node, AppMapMemory, CandidateAction,
    CandidateActionKind, PageTransition,
};
use crate::assoc::{assoc_find, assoc_get, assoc_set, assoc_sorted, lemma_assoc_get_insert, pairs_view};
use crate::definition::AgentDefinition;
use crate::error::{AgentCoreError, AgentCoreResult};
use crate::json::Json;
use crate::text::{join_strings, owned, replace_str, str_eq, to_decimal};
use crate::tool::{ToolResult, ToolResultStatus};
use crate::tool_registry::{ToolCall, ToolExecutor};

verus! {

/// One step of the task: the tool it called, on which page of which app, and the token
/// estimates of the local view and of the whole map at that point.
#[derive(Clone, Debug, PartialEq, Eq)]
pub struct CrossAppStepRecord {
    pub index: usize,
    pub app: String,
    pub page: String,
    pub tool: String,
    pub reused_map: bool,
    pub local_view_tokens: usize,
    pub full_map_tokens: usize,
}

/// What the task did: its steps, how often it changed app, searched and reused the map, the
/// token totals, and how often each tool ran.
#[derive(Clone, Debug, PartialEq, Eq)]
pub struct CrossAppTaskReport {
    pub completed: bool,
    pub step_count: usize,
    pub app_switches: usize,
    pub semantic_searches: usize,
    pub map_reuse_hits: usize,
    pub repeated_exploration_avoided: usize,
    pub full_map_token_total: usize,
    pub local_view_token_total: usize,
    pub executed_tools: Vec<(String, usize)>,
    pub steps: Vec<CrossAppStepRecord>,
}

/// The local-view tokens of the steps, summed.
pub open spec fn local_tokens_of(s: Seq<CrossAppStepRecord>) -> nat
    decreases s.len(),
{
    if s.len() == 0 {
        0
    } else {
        local_tokens_of(s.drop_last()) + s.last().local_view_tokens as nat
    }
}

/// The whole-map tokens of the steps, summed.
pub open spec fn full_tokens_of(s: Seq<CrossAppStepRecord>) -> nat
    decreases s.len(),
{
    if s.len() == 0 {
        0
    } else {
        full_tokens_of(s.drop_last()) + s.last().full_map_tokens as nat
    }
}

/// How many of the steps called the tool `name`.
pub open spec fn tool_uses(s: Seq<CrossAppStepRecord>, name: Seq<char>) -> nat
    decreases s.len(),
{
    if s.len() == 0 {
        0
    } else {
        tool_uses(s.drop_last(), name) + if s.last().tool@ == name {
            1nat
        } else {
            0nat
        }
    }
}

impl CrossAppTaskReport {
    /// The report agrees with its steps: one record per step, numbered from one; the token
    /// totals are the sums over the steps; each tool is listed once, in order, with the
    /// number of steps that called it, and no tool is listed that no step called.
    pub open spec fn consistent(&self) -> bool {
        &&& self.steps@.len() == self.step_count
        &&& forall|i: int| 0 <= i < self.steps@.len() ==> (#[trigger] self.steps@[i]).index == i + 1
        &&& self.local_view_token_total == local_tokens_of(self.steps@)
        &&& self.full_map_token_total == full_tokens_of(self.steps@)
        &&& assoc_sorted(pairs_view(self.executed_tools@))
        &&& forall|name: Seq<char>| #![trigger assoc_get(pairs_view(self.executed_tools@), name)]
            match assoc_get(pairs_view(self.executed_tools@), name) {
                Some(c) => c == tool_uses(self.steps@, name) && c > 0,
                None => tool_uses(self.steps@, name) == 0,
            }
    }
}

/// `a` followed by `b`.
fn cat(a: &str, b: &str) -> (r: String) {
    join_strings(&vec![owned(a), owned(b)], "")
}

/// A count plus `x`, or an error where it would pass the machine's limit.
fn count_up(n: usize, x: usize) -> (r: AgentCoreResult<usize>)
    ensures
        r matches Ok(m) ==> m == n + x,
        r matches Err(e) ==> e is Fatal,
{
    match n.checked_add(x) {
        Some(m) => Ok(m),
        None => Err(AgentCoreError::Fatal(owned("task counter overflowed"))),
    }
}

/// A report of nothing done yet.
fn empty_report() -> (r: CrossAppTaskReport)
    ensures
        r.consistent(),
        r.step_count == 0 && r.map_reuse_hits == 0 && r.semantic_searches == 0 && !r.completed
            && r.repeated_exploration_avoided == 0,
{
    let r = CrossAppTaskReport {
        completed: false,
        step_count: 0,
        app_switches: 0,
        semantic_searches: 0,
        map_reuse_hits: 0,
        repeated_exploration_avoided: 0,
        full_map_token_total: 0,
        local_view_token_total: 0,
        executed_tools: Vec::new(),
        steps: Vec::new(),
    };
    assert(pairs_view(r.executed_tools@) =~= Seq::empty());
    r
}

/// The package of the page `page_id`, or "unknown" where the map has no such page.
fn page_app(map: &AppMapMemory, page_id: &str) -> (r: String) {
    let pages = map.pages();
    let mut i: usize = 0;
    while i < pages.len()
        invariant
            i <= pages@.len(),
        decreases pages.len() - i,
    {
        if str_eq(pages[i].id.as_str(), page_id) {
            return pages[i].package.clone();
        }
        i += 1;
    }
    owned("unknown")
}

/// Adds a step to the report: one more step, its tokens, its tool's count, and a map reuse
/// where it reused the map.
fn record_step(report: &mut CrossAppTaskReport, step: CrossAppStepRecord) -> (r: AgentCoreResult<()>)
    requires
        old(report).consistent(),
    ensures
        final(report).consistent(),
        final(report).semantic_searches == old(report).semantic_searches,
        final(report).completed == old(report).completed,
        final(report).repeated_exploration_avoided == old(report).repeated_exploration_avoided,
        r is Ok ==> final(report).step_count == old(report).step_count + 1
            && final(report).steps@ == old(report).steps@.push(final(report).steps@.last())
            && final(report).steps@.last().tool@ == step.tool@
            && final(report).map_reuse_hits == old(report).map_reuse_hits + (if step.reused_map { 1int } else { 0int }),
        r is Err ==> final(report).step_count == old(report).step_count && final(report).map_reuse_hits == old(report).map_reuse_hits,
        r matches Err(e) ==> e is Fatal,
{
    let count = count_up(report.step_count, 1)?;
    let local = count_up(report.local_view_token_total, step.local_view_tokens)?;
    let full = count_up(report.full_map_token_total, step.full_map_tokens)?;
    let hits = count_up(report.map_reuse_hits, if step.reused_map { 1 } else { 0 })?;
    let previous: usize = match assoc_find(&report.executed_tools, step.tool.as_str()) {
        Some(c) => *c,
        None => 0,
    };
    let uses = count_up(previous, 1)?;
    let ghost old_steps = report.steps@;
    let ghost old_tools = pairs_view(report.executed_tools@);
    let ghost name = step.tool@;
    let tool = step.tool.clone();
    let record = CrossAppStepRecord {
        index: count,
        app: step.app,
        page: step.page,
        tool: step.tool,
        reused_map: step.reused_map,
        local_view_tokens: step.local_view_tokens,
        full_map_tokens: step.full_map_tokens,
    };
    report.step_count = count;
    report.local_view_token_total = local;
    report.full_map_token_total = full;
    report.map_reuse_hits = hits;
    report.steps.push(record);
    assoc_set(&mut report.executed_tools, tool.as_str(), uses);
    proof {
        let s = report.steps@;
        assert(s.drop_last() =~= old_steps);
        assert(s =~= old_steps.push(s.last()));
        assert forall|i: int| 0 <= i < s.len() implies (#[trigger] s[i]).index == i + 1 by {
            if i < s.len() - 1 {
                assert(s[i] == old_steps[i]);
            }
        }
        assert forall|other: Seq<char>| #![trigger assoc_get(pairs_view(report.executed_tools@), other)]
            match assoc_get(pairs_view(report.executed_tools@), other) {
                Some(c) => c == tool_uses(report.steps@, other) && c > 0,
                None => tool_uses(report.steps@, other) == 0,
            } by {
            lemma_assoc_get_insert(old_tools, name, uses, other);
            assert(tool_uses(s, other) == tool_uses(old_steps, other) + if s.last().tool@ == other { 1nat } else { 0nat });
            if other != name {
                assert(assoc_get(old_tools, other) == assoc_get(pairs_view(report.executed_tools@), other));
            }
        }
    }
    Ok(())
}

/// The message of a tool call of the long task that did not succeed.
pub open spec fn failed_in_long_task(name: Seq<char>) -> Seq<char> {
    "tool `"@ + name + "` failed in long task"@
}

/// What a step of the long task gives for the executor's answer `res` to a call of the tool
/// `name`: the executor's error unchanged, a recoverable error naming the tool when the call
/// did not succeed, and `Ok` when it did.
pub open spec fn step_result_ok(res: AgentCoreResult<ToolResult>, name: Seq<char>, r: AgentCoreResult<()>) -> bool {
    match res {
        Err(e) => r == Err::<(), AgentCoreError>(e),
        Ok(x) => if x.status == ToolResultStatus::Success {
            r is Ok
        } else {
            r matches Err(AgentCoreError::Recoverable(t)) && t@ == failed_in_long_task(name)
        },
    }
}

/// The call `call` of the long task ended the task with `e`: the executor's answer to it,
/// which its contract allows, gives that error (see [`step_result_ok`]).
pub open spec fn step_failed(executor: ToolExecutor, definition: AgentDefinition, call: ToolCall, e: AgentCoreError) -> bool {
    exists|res: AgentCoreResult<ToolResult>| #![trigger executor.execute_one_ok(definition, call, res)]
        executor.execute_one_ok(definition, call, res) && step_result_ok(res, call.tool_name@, Err(e))
}

/// How the long task may end in `e`: a count or estimate too large (`Fatal`), a page or a
/// path the map does not give (`NotFound`), or a step whose call failed (see [`step_failed`]).
pub open spec fn task_error(executor: ToolExecutor, definition: AgentDefinition, e: AgentCoreError) -> bool {
    ||| e is Fatal
    ||| e is NotFound
    ||| exists|call: ToolCall| #![trigger step_failed(executor, definition, call, e)] step_failed(executor, definition, call, e)
}

/// Checks the executor's answer to a call of the tool `tool_name` in the long task (see
/// [`step_result_ok`]).
pub fn long_task_step_result(res: AgentCoreResult<ToolResult>, tool_name: &str) -> (r: AgentCoreResult<()>)
    ensures
        step_result_ok(res, tool_name@, r),
{
    match res {
        Err(e) => Err(e),
        Ok(x) => if x.status == ToolResultStatus::Success {
            Ok(())
        } else {
            let parts = vec![owned("tool `"), owned(tool_name), owned("` failed in long task")];
            let message = join_strings(&parts, "");
            proof {
                reveal_strlit("");
                assert(crate::text::views_of(parts@) =~= seq!["tool `"@, tool_name@, "` failed in long task"@]);
                reveal_with_fuel(crate::text::join_seq, 3);
                assert(message@ =~= failed_in_long_task(tool_name@));
            }
            Err(AgentCoreError::Recoverable(message))
        },
    }
}

/// Runs one tool call from `page` and records it: the call must succeed, and the step keeps
/// the token estimates of the page's local view and of the whole map.
fn execute_tool_step(
    executor: &ToolExecutor,
    definition: &AgentDefinition,
    map: &AppMapMemory,
    page: &str,
    call: ToolCall,
    reused_map: bool,
    report: &mut CrossAppTaskReport,
) -> (r: AgentCoreResult<()>)
    requires
        old(report).consistent(),
        map.wf(),
    ensures
        final(report).consistent(),
        final(report).semantic_searches == old(report).semantic_searches,
        final(report).completed == old(report).completed,
        final(report).repeated_exploration_avoided == old(report).repeated_exploration_avoided,
        r is Ok ==> final(report).step_count == old(report).step_count + 1
            && final(report).steps@ == old(report).steps@.push(final(report).steps@.last())
            && final(report).steps@.last().tool@ == call.tool_name@
            && final(report).map_reuse_hits == old(report).map_reuse_hits + (if reused_map { 1int } else { 0int }),
        r matches Err(e) ==> e is Fatal || step_failed(*executor, *definition, call, e),
{
    let view = map.local_view(Some(page), 1, None);
    let local_tokens = match AppMapMemory::try_estimate_context_tokens(&view) {
        Some(n) => n,
        None => return Err(AgentCoreError::Fatal(owned("local view too large to estimate"))),
    };
    let full_tokens = match map.try_estimate_full_map_tokens() {
        Some(n) => n,
        None => return Err(AgentCoreError::Fatal(owned("map too large to estimate"))),
    };
    let tool_name = call.tool_name.clone();
    let ghost the_call = call;
    let outcome = executor.execute_one(definition, call);
    let ghost answer = outcome;
    let checked = long_task_step_result(outcome, tool_name.as_str());
    match checked {
        Ok(()) => {},
        Err(e) => {
            let r: AgentCoreResult<()> = Err(e);
            assert(step_result_ok(answer, the_call.tool_name@, r));
            assert(executor.execute_one_ok(*definition, the_call, answer));
            return r;
        },
    }
    let step = CrossAppStepRecord {
        index: 0,
        app: page_app(map, page),
        page: owned(page),
        tool: tool_name,
        reused_map,
        local_view_tokens: local_tokens,
        full_map_tokens: full_tokens,
    };
    record_step(report, step)
}

/// Takes a map action from `page` as a tool call, numbered after the steps so far.
fn execute_action_step(
    executor: &ToolExecutor,
    definition: &AgentDefinition,
    map: &AppMapMemory,
    page: &str,
    action: &CandidateAction,
    report: &mut CrossAppTaskReport,
) -> (r: AgentCoreResult<()>)
    requires
        old(report).consistent(),
        map.wf(),
    ensures
        final(report).consistent(),
        final(report).semantic_searches == old(report).semantic_searches,
        final(report).completed == old(report).completed,
        final(report).repeated_exploration_avoided == old(report).repeated_exploration_avoided,
        r is Ok ==> final(report).step_count == old(report).step_count + 1
            && final(report).steps@ == old(report).steps@.push(final(report).steps@.last())
            && final(report).map_reuse_hits == old(report).map_reuse_hits + 1,
        r matches Err(e) ==> task_error(*executor, *definition, e),
{
    let next = count_up(report.step_count, 1)?;
    let call_id = cat("map-action-", to_decimal(next as u64).as_str());
    let call = action.to_tool_call(call_id.as_str());
    execute_tool_step(executor, definition, map, page, call, true, report)
}

/// Goes from `from_page` to the best page for `destination_query`, by the transition
/// labelled `action_label` that the map holds, still live; gives the page reached.
fn execute_named_destination(
    executor: &ToolExecutor,
    definition: &AgentDefinition,
    map: &AppMapMemory,
    from_page: &str,
    destination_query: &str,
    action_label: &str,
    report: &mut CrossAppTaskReport,
) -> (r: AgentCoreResult<String>)
    requires
        old(report).consistent(),
        map.wf(),
        destination_query@.len() <= 64,
    ensures
        final(report).consistent(),
        final(report).semantic_searches == old(report).semantic_searches,
        final(report).completed == old(report).completed,
        final(report).repeated_exploration_avoided == old(report).repeated_exploration_avoided,
        r is Ok ==> final(report).step_count == old(report).step_count + 1
            && final(report).steps@ == old(report).steps@.push(final(report).steps@.last())
            && final(report).map_reuse_hits == old(report).map_reuse_hits + 2,
        r matches Err(e) ==> task_error(*executor, *definition, e),
{
    let hits = map.semantic_search(destination_query, 1);
    if hits.len() == 0 {
        let message = join_strings(&vec![owned("destination `"), owned(destination_query), owned("` not found")], "");
        return Err(AgentCoreError::NotFound(message));
    }
    let target = hits[0].page_id.clone();
    let transitions = map.transitions();
    let mut i: usize = 0;
    let mut found: Option<usize> = None;
    while i < transitions.len()
        invariant
            i <= transitions@.len(),
            found matches Some(k) ==> k < transitions@.len(),
        decreases transitions.len() - i,
    {
        let t = &transitions[i];
        if str_eq(t.from_page.as_str(), from_page) && str_eq(t.to_page.as_str(), target.as_str())
            && str_eq(t.action.label.as_str(), action_label) && !t.stale {
            found = Some(i);
            break;
        }
        i += 1;
    }
    let k = match found {
        Some(k) => k,
        None => {
            let message = join_strings(&vec![owned("path for `"), owned(action_label), owned("` not found")], "");
            return Err(AgentCoreError::NotFound(message));
        },
    };
    report.map_reuse_hits = count_up(report.map_reuse_hits, 1)?;
    execute_action_step(executor, definition, map, from_page, &transitions[k].action, report)?;
    Ok(target)
}

/// Counts a change of app where the page reached is in another app than the current one.
fn count_app_switch(map: &AppMapMemory, current_app: &mut String, current_page: &str, report: &mut CrossAppTaskReport) -> (r: AgentCoreResult<()>)
    ensures
        final(report).consistent() == old(report).consistent(),
        final(report).step_count == old(report).step_count,
        final(report).steps == old(report).steps,
        final(report).semantic_searches == old(report).semantic_searches,
        final(report).map_reuse_hits == old(report).map_reuse_hits,
        final(report).completed == old(report).completed,
        final(report).repeated_exploration_avoided == old(report).repeated_exploration_avoided,
        r matches Err(e) ==> e is Fatal,
{
    let next_app = page_app(map, current_page);
    if !str_eq(next_app.as_str(), current_app.as_str()) {
        report.app_switches = count_up(report.app_switches, 1)?;
        *current_app = next_app;
    }
    Ok(())
}

/// The action that opens the app `app_name` from `from_page`.
fn open_app_action(from_page: &str, label: &str, app_name: &str, expected_target: Option<String>) -> (r: CandidateAction) {
    let lower = lowercase_text(app_name);
    proof {
        reveal_strlit(" ");
    }
    let slug = replace_str(lower.as_str(), " ", "-");
    let mut arguments = Json::new_object();
    arguments.set("text", Json::str_of(app_name));
    let id = cat("open-app:", slug.as_str());
    CandidateAction {
        id,
        label: owned(label),
        kind: CandidateActionKind::OpenApp,
        tool_name: owned("open_app"),
        arguments,
        from_page: owned(from_page),
        expected_target,
        read_only: false,
        dangerous: false,
    }
}

/// No transition has worked, or failed, `n` times or more.
spec fn counts_below(ts: Seq<PageTransition>, n: int) -> bool {
    forall|k: int| 0 <= k < ts.len() ==> (#[trigger] ts[k]).success_count < n && ts[k].failure_count < n
}

/// Records a transition that worked; every count stays below one more than before.
fn link(map: &mut AppMapMemory, from_page: &str, to_page: &str, action: CandidateAction, Ghost(n): Ghost<int>)
    requires
        counts_below(old(map).transitions_view(), n),
        1 <= n < usize::MAX,
    ensures
        counts_below(final(map).transitions_view(), n + 1),
        final(map).pages_view() == old(map).pages_view(),
        final(map).current_view() == old(map).current_view(),
        final(map).steps_view() == old(map).steps_view(),
        final(map).wf() == old(map).wf(),
{
    let ghost t0 = map.transitions_view();
    map.record_transition(from_page, to_page, action, true);
    proof {
        let t1 = map.transitions_view();
        assert forall|j: int| 0 <= j < t1.len() implies (#[trigger] t1[j]).success_count < n + 1 && t1[j].failure_count < n + 1 by {
            if j < t0.len() {
                assert(t0[j].success_count < n);
            }
            if t1.len() == t0.len() + 1 && j < t0.len() {
                assert(t1.drop_last()[j] == t1[j]);
            }
        }
    }
}

/// `a`, `b` and `c`, one after another.
fn cat3(a: &str, b: &str, c: &str) -> (r: String) {
    join_strings(&vec![owned(a), owned(b), owned(c)], "")
}

/// A screen of `package` with a button and a text field.
fn button_and_field(package: &str, button: &str, field: &str) -> (r: Json)
    ensures
        crate::app_map::element_list(r.view()).len() == 2,
{
    screen(package, vec![
        ui_node(button, "android.widget.Button", Some(true), None, None),
        ui_node(field, "android.widget.EditText", Some(true), Some(true), None),
    ])
}

/// The sample map with a calendar page and a mail page added, and the app switches of the
/// task recorded: order details to notes, notes to calendar, calendar to mail, and mail back
/// to the shop's home page.
fn build_long_task_map() -> (r: AgentCoreResult<AppMapMemory>)
    ensures
        r matches Ok(m) ==> m.wf() && m.current_view() is Some,
        r matches Err(e) ==> e is NotFound,
{
    let mut map = sample_cross_app_map()?;
    let home = match map.current_page() {
        Some(p) => owned(p),
        None => {
            return Err(AgentCoreError::Fatal(owned("sample map did not set current page")));
        },
    };
    proof {
        reveal_strlit("Share");
        reveal_strlit("New note");
    }
    let found = map.semantic_search("Share", 1);
    if found.len() == 0 {
        return Err(AgentCoreError::NotFound(owned("detail page missing")));
    }
    let detail = found[0].page_id.clone();
    let found = map.semantic_search("New note", 1);
    if found.len() == 0 {
        return Err(AgentCoreError::NotFound(owned("notes page missing")));
    }
    let notes = found[0].page_id.clone();
    let ui = button_and_field("com.example.calendar", "New event", "Reminder title");
    assert(crate::app_map::screen_elements(ui.view()).len() > 0);
    let calendar = map.observe_ui_state(&ui, Some("create follow-up reminder"))?.page_id;
    let ui = button_and_field("com.example.mail", "Compose", "Message body");
    assert(crate::app_map::screen_elements(ui.view()).len() > 0);
    let mail = map.observe_ui_state(&ui, Some("draft operations update email"))?.page_id;
    assert(counts_below(map.transitions_view(), 2));
    let a = open_app_action(notes.as_str(), "Open Calendar", "Calendar", Some(calendar.clone()));
    link(&mut map, notes.as_str(), calendar.as_str(), a, Ghost(2));
    let a = open_app_action(calendar.as_str(), "Open Mail", "Mail", Some(mail.clone()));
    link(&mut map, calendar.as_str(), mail.as_str(), a, Ghost(3));
    let a = open_app_action(mail.as_str(), "Open Demo Shop", "Demo Shop", Some(home.clone()));
    link(&mut map, mail.as_str(), home.as_str(), a, Ghost(4));
    let a = open_app_action(detail.as_str(), "Open Notes", "Notes", Some(notes.clone()));
    link(&mut map, detail.as_str(), notes.as_str(), a, Ghost(5));
    Ok(map)
}

/// Tool arguments `{"text": text, "index": 0}`.
fn typing_args(text: String) -> (r: Json) {
    let mut o = Json::new_object();
    o.set("text", Json::Str(text));
    o.set("index", Json::Number(crate::json::JsonNumber::PosInt(0)));
    o
}

/// Tool arguments with one text field.
fn text_arg(key: &str, text: String) -> (r: Json) {
    let mut o = Json::new_object();
    o.set(key, Json::Str(text));
    o
}

/// The steps ending just before position `e` form one order's round: observe the screen,
/// look the order up, remember it, then a typing step after each of the first three moves
/// to another app (the moves are map actions).
pub open spec fn round_at(s: Seq<CrossAppStepRecord>, e: int) -> bool {
    &&& 10 <= e <= s.len()
    &&& s[e - 10].tool@ == "ui_state"@
    &&& s[e - 9].tool@ == "search_database"@
    &&& s[e - 8].tool@ == "remember"@
    &&& s[e - 6].tool@ == "type"@
    &&& s[e - 4].tool@ == "type"@
    &&& s[e - 2].tool@ == "type"@
}

/// Rounds that end at the positions `ends`, in order and apart.
pub open spec fn rounds_at(s: Seq<CrossAppStepRecord>, ends: Seq<int>) -> bool {
    &&& forall|k: int| #![trigger ends[k]] 0 <= k < ends.len() ==> round_at(s, ends[k])
    &&& forall|k: int| #![trigger ends[k]] 0 < k < ends.len() ==> ends[k - 1] <= ends[k] - 10
}

/// The script of the task: ten rounds, each after the map actions that lead to the order's
/// details, the last round just before a final step that calls `complete`.
pub open spec fn follows_script(s: Seq<CrossAppStepRecord>) -> bool {
    exists|ends: Seq<int>| #![trigger rounds_at(s, ends)]
        rounds_at(s, ends) && ends.len() == 10 && ends[9] == s.len() - 1 && s.last().tool@ == "complete"@
}

/// Rounds stay where they are when steps are added after them.
proof fn lemma_rounds_grow(s: Seq<CrossAppStepRecord>, t: Seq<CrossAppStepRecord>, ends: Seq<int>)
    requires
        rounds_at(s, ends),
        s.len() <= t.len(),
        t.subrange(0, s.len() as int) == s,
    ensures
        rounds_at(t, ends),
{
    assert forall|k: int| #![trigger ends[k]] 0 <= k < ends.len() implies round_at(t, ends[k]) by {
        let e = ends[k];
        assert(round_at(s, e));
        assert(t.subrange(0, s.len() as int)[e - 10] == t[e - 10]);
        assert(t.subrange(0, s.len() as int)[e - 9] == t[e - 9]);
        assert(t.subrange(0, s.len() as int)[e - 8] == t[e - 8]);
        assert(t.subrange(0, s.len() as int)[e - 6] == t[e - 6]);
        assert(t.subrange(0, s.len() as int)[e - 4] == t[e - 4]);
        assert(t.subrange(0, s.len() as int)[e - 2] == t[e - 2]);
    }
}

/// A sequence is a prefix of itself with one more item.
proof fn lemma_push_prefix(s: Seq<CrossAppStepRecord>, t: Seq<CrossAppStepRecord>, u: Seq<CrossAppStepRecord>)
    requires
        s.len() <= t.len(),
        t.subrange(0, s.len() as int) == s,
        u == t.push(u.last()),
    ensures
        s.len() < u.len(),
        u.subrange(0, s.len() as int) == s,
{
    assert(u.subrange(0, s.len() as int) =~= t.subrange(0, s.len() as int));
}

/// One order's round from `current_page`: observe, look the order up and remember it, then
/// note it, set a reminder and mail an update, each app reached by the transition the map
/// holds, and go back to the shop.
fn run_order_round(
    executor: &ToolExecutor,
    definition: &AgentDefinition,
    map: &AppMapMemory,
    order_index: usize,
    current_page: &mut String,
    current_app: &mut String,
    report: &mut CrossAppTaskReport,
) -> (r: AgentCoreResult<()>)
    requires
        old(report).consistent(),
        map.wf(),
        order_index <= 10,
    ensures
        final(report).consistent(),
        final(report).semantic_searches == old(report).semantic_searches,
        final(report).completed == old(report).completed,
        final(report).repeated_exploration_avoided == old(report).repeated_exploration_avoided,
        r is Ok ==> {
            &&& final(report).steps@.len() == old(report).steps@.len() + 10
            &&& final(report).steps@.subrange(0, old(report).steps@.len() as int) == old(report).steps@
            &&& round_at(final(report).steps@, final(report).steps@.len() as int)
            &&& final(report).step_count == old(report).step_count + 10
            &&& final(report).map_reuse_hits == old(report).map_reuse_hits + 13
        },
        r matches Err(e) ==> task_error(*executor, *definition, e),
{
    let ghost s0 = report.steps@;
    proof {
        reveal_strlit("notes");
        reveal_strlit("calendar");
        reveal_strlit("mail");
        reveal_strlit("shop");
        assert(s0.subrange(0, s0.len() as int) =~= s0);
    }
    let n = to_decimal(order_index as u64);
    let id = cat("observe-", n.as_str());
    let ghost s = report.steps@;
    execute_tool_step(executor, definition, map, current_page.as_str(), ToolCall::new(id.as_str(), "ui_state", Json::new_object()), false, report)?;
    let ghost s1 = report.steps@;
    proof { lemma_push_prefix(s0, s, s1); }
    let id = cat("lookup-order-", n.as_str());
    let order = to_decimal(2048 + order_index as u64);
    let args = text_arg("query", cat("order #", order.as_str()));
    execute_tool_step(executor, definition, map, current_page.as_str(), ToolCall::new(id.as_str(), "search_database", args), true, report)?;
    let ghost s2 = report.steps@;
    proof { lemma_push_prefix(s0, s1, s2); }
    let id = cat("remember-order-", n.as_str());
    let args = text_arg("information", cat3("order_", n.as_str(), "=ready_to_share"));
    execute_tool_step(executor, definition, map, current_page.as_str(), ToolCall::new(id.as_str(), "remember", args), true, report)?;
    let ghost s3 = report.steps@;
    proof { lemma_push_prefix(s0, s2, s3); }

    let page = execute_named_destination(executor, definition, map, current_page.as_str(), "notes", "Open Notes", report)?;
    *current_page = page;
    let ghost s4 = report.steps@;
    proof { lemma_push_prefix(s0, s3, s4); }
    count_app_switch(map, current_app, current_page.as_str(), report)?;
    let id = cat("type-note-", n.as_str());
    let args = typing_args(cat3("Order ", n.as_str(), ": copied detail summary"));
    execute_tool_step(executor, definition, map, current_page.as_str(), ToolCall::new(id.as_str(), "type", args), true, report)?;
    let ghost s5 = report.steps@;
    proof { lemma_push_prefix(s0, s4, s5); }

    let page = execute_named_destination(executor, definition, map, current_page.as_str(), "calendar", "Open Calendar", report)?;
    *current_page = page;
    let ghost s6 = report.steps@;
    proof { lemma_push_prefix(s0, s5, s6); }
    count_app_switch(map, current_app, current_page.as_str(), report)?;
    let id = cat("type-reminder-", n.as_str());
    let args = typing_args(cat3("Follow up order ", n.as_str(), " tomorrow"));
    execute_tool_step(executor, definition, map, current_page.as_str(), ToolCall::new(id.as_str(), "type", args), true, report)?;
    let ghost s7 = report.steps@;
    proof { lemma_push_prefix(s0, s6, s7); }

    let page = execute_named_destination(executor, definition, map, current_page.as_str(), "mail", "Open Mail", report)?;
    *current_page = page;
    let ghost s8 = report.steps@;
    proof { lemma_push_prefix(s0, s7, s8); }
    count_app_switch(map, current_app, current_page.as_str(), report)?;
    let id = cat("type-mail-", n.as_str());
    let args = typing_args(cat3("Draft order ", n.as_str(), " update for ops"));
    execute_tool_step(executor, definition, map, current_page.as_str(), ToolCall::new(id.as_str(), "type", args), true, report)?;
    let ghost s9 = report.steps@;
    proof { lemma_push_prefix(s0, s8, s9); }

    let page = execute_named_destination(executor, definition, map, current_page.as_str(), "shop", "Open Demo Shop", report)?;
    *current_page = page;
    let ghost s10 = report.steps@;
    proof { lemma_push_prefix(s0, s9, s10); }
    count_app_switch(map, current_app, current_page.as_str(), report)?;
    proof {
        let e = s10.len() as int;
        assert(s10[e - 10] == s1.last());
        assert(s10[e - 9] == s2.last());
        assert(s10[e - 8] == s3.last());
        assert(s10[e - 6] == s5.last());
        assert(s10[e - 4] == s7.last());
        assert(s10[e - 2] == s9.last());
    }
    Ok(())
}

/// Runs the task: for each of ten orders, follow the map to the order's details, observe the
/// screen, look the order up and remember it, then note it, put a reminder in the calendar,
/// mail an update and go back to the shop, each app reached by a transition the map holds;
/// finally mark the task complete. Every step is a tool call that must succeed, and the
/// steps follow that script. The report is consistent with its steps; on success there are
/// more than a hundred of them and the task is complete. Whatever the tools answer, a
/// failure is one of [`task_error`]: a tool call that fails ends the task with the
/// executor's error, and one that does not succeed with a recoverable error naming the tool
/// (see [`long_task_step_result`]); a page or path the map does not give ends it with
/// `NotFound`; a count or a token estimate too large for a `usize` ends it with `Fatal`.
pub fn run_hundred_step_cross_app_task(executor: &ToolExecutor, definition: &AgentDefinition) -> (r: AgentCoreResult<CrossAppTaskReport>)
    ensures
        r matches Ok(rep) ==> {
            &&& rep.consistent()
            &&& follows_script(rep.steps@)
            &&& rep.completed
            &&& rep.step_count >= 101
            &&& rep.map_reuse_hits >= 131
            &&& rep.semantic_searches == 10
            &&& rep.repeated_exploration_avoided == rep.map_reuse_hits
            &&& rep.steps@.last().tool@ == "complete"@
        },
        r matches Err(e) ==> task_error(*executor, *definition, e),
{
    let map = build_long_task_map()?;
    let mut report = empty_report();
    let mut current_page = match map.current_page() {
        Some(p) => owned(p),
        None => {
            return Err(AgentCoreError::Fatal(owned("sample map did not set current page")));
        },
    };
    let mut current_app = page_app(&map, current_page.as_str());
    let mut order_index: usize = 1;
    let ghost mut ends: Seq<int> = Seq::empty();
    while order_index <= 10
        invariant
            1 <= order_index <= 11,
            map.wf(),
            report.consistent(),
            report.semantic_searches == order_index - 1,
            report.step_count >= 10 * (order_index - 1),
            report.map_reuse_hits >= 13 * (order_index - 1),
            !report.completed,
            report.repeated_exploration_avoided == 0,
            ends.len() == order_index - 1,
            rounds_at(report.steps@, ends),
            ends.len() > 0 ==> ends.last() == report.steps@.len(),
        decreases 11 - order_index,
    {
        report.semantic_searches = report.semantic_searches + 1;
        proof {
            reveal_strlit("Share");
        }
        let hits = map.semantic_search("Share", 1);
        if hits.len() == 0 {
            return Err(AgentCoreError::NotFound(owned("order detail page not in map")));
        }
        let path = match map.plan_path(current_page.as_str(), hits[0].page_id.as_str()) {
            Some(p) => p,
            None => {
                return Err(AgentCoreError::NotFound(owned("path to order detail not in map")));
            },
        };
        report.map_reuse_hits = count_up(report.map_reuse_hits, path.len())?;
        let mut j: usize = 0;
        while j < path.len()
            invariant
                j <= path@.len(),
                map.wf(),
                report.consistent(),
                report.semantic_searches == order_index,
                report.step_count >= 10 * (order_index - 1),
                report.map_reuse_hits >= 13 * (order_index - 1),
                !report.completed,
                report.repeated_exploration_avoided == 0,
                ends.len() == order_index - 1,
                rounds_at(report.steps@, ends),
                ends.len() > 0 ==> ends.last() <= report.steps@.len(),
            decreases path.len() - j,
        {
            let ghost before = report.steps@;
            execute_action_step(executor, definition, &map, path[j].from_page.as_str(), &path[j].action, &mut report)?;
            proof {
                assert(report.steps@.subrange(0, before.len() as int) =~= before);
                lemma_rounds_grow(before, report.steps@, ends);
            }
            current_page = path[j].to_page.clone();
            count_app_switch(&map, &mut current_app, current_page.as_str(), &mut report)?;
            j += 1;
        }
        let ghost before = report.steps@;
        run_order_round(executor, definition, &map, order_index, &mut current_page, &mut current_app, &mut report)?;
        proof {
            lemma_rounds_grow(before, report.steps@, ends);
            let e = report.steps@.len() as int;
            let ends2 = ends.push(e);
            assert forall|k: int| #![trigger ends2[k]] 0 <= k < ends2.len() implies round_at(report.steps@, ends2[k]) by {
                if k < ends.len() {
                    assert(ends2[k] == ends[k]);
                }
            }
            assert forall|k: int| #![trigger ends2[k]] 0 < k < ends2.len() implies ends2[k - 1] <= ends2[k] - 10 by {
                if k < ends.len() {
                    assert(ends2[k] == ends[k]);
                    assert(ends2[k - 1] == ends[k - 1]);
                } else {
                    assert(ends2[k - 1] == ends.last());
                }
            }
            ends = ends2;
        }
        order_index += 1;
    }
    let mut args = Json::new_object();
    args.set("success", Json::Bool(true));
    args.set("reason", Json::str_of("100+ step cross-app order summary workflow completed"));
    let call = ToolCall::new("complete-hundred-step-task", "complete", args);
    proof {
        reveal_strlit("complete");
    }
    let ghost before = report.steps@;
    execute_tool_step(executor, definition, &map, current_page.as_str(), call, true, &mut report)?;
    proof {
        assert(report.steps@.subrange(0, before.len() as int) =~= before);
        lemma_rounds_grow(before, report.steps@, ends);
        assert(ends[9] == ends.last());
        assert(ends[9] == report.steps@.len() - 1);
        assert(rounds_at(report.steps@, ends));
    }
    report.completed = report.step_count >= 100;
    report.repeated_exploration_avoided = report.map_reuse_hits;
    Ok(report)
}

} // verus!
