//! The prompts a mobile run is configured with: templates with `{{name}}` placeholders,
//! filled from the run's variables and settings.

use vstd::prelude::*;
use crate::assoc::{assoc_insert, assoc_set, assoc_sorted, pairs_view};
use crate::definition::{definition_error, AgentDefinition, AgentDefinitionBuilder, ToolVisibility};
use crate::error::{AgentCoreError, AgentCoreResult};
use crate::text::{decimal, owned, replace_seq, replace_str, to_decimal};

verus! {

/// Whether the agent acts fast or reasons first.
#[derive(Debug, Clone, Copy, PartialEq, Eq, Structural)]
pub enum ExecutionMode {
    Fast,
    Reasoning,
}

/// The prompt templates of a run.
#[derive(Debug)]
pub struct PromptSet {
    pub fast_system: String,
    pub reasoning_system: String,
    pub user_task: String,
}

/// The settings of a mobile run.
#[derive(Debug)]
pub struct MobileRunLikeConfig {
    pub agent_name: String,
    pub mode: ExecutionMode,
    pub goal: String,
    pub max_steps: usize,
    pub step_timeout_seconds: u64,
    pub vision_enabled: bool,
    pub custom_instruction: Option<String>,
    pub variables: Vec<(String, String)>,
    pub prompt_set: PromptSet,
}

pub const FAST_SYSTEM: &'static str = "You are a fast mobile automation agent.\nYou observe the current mobile screen, choose exactly the next useful action, and stop when the task is done.\n\nRules:\n- Use direct tools for common actions.\n- Search for uncommon tools only when needed.\n- Do not use hidden tools.\n- Keep at most {{max_steps}} steps.\n- Each tool action should finish within {{step_timeout_seconds}} seconds.\n- Vision is {{vision_enabled}}.\n- Return a final JSON object with success, remembered_items, and summary.";

pub const REASONING_SYSTEM: &'static str = "You are a reasoning mobile automation agent.\nPlan briefly, delegate concrete mobile actions to tool calls, inspect observations, and finish with a structured answer.\n\nRules:\n- Keep the plan short.\n- Prefer screen state and tool observations over assumptions.\n- Keep at most {{max_steps}} steps.\n- Vision is {{vision_enabled}}.";

pub const USER_TASK: &'static str = "Task:\n{{goal}}\n\nTarget app: {{app_name}}";

pub const DEFAULT_GOAL: &'static str = "Open the demo shop, search for {{search_term}}, remember the first result, then finish with a concise structured summary.";

pub const DEFAULT_INSTRUCTION: &'static str = "Use tools for every mobile action. Never claim a tap or type happened without a tool result.";

/// `{{key}}` and `{{ key }}` replaced by each variable's value, variable by variable.
pub open spec fn render_seq(template: Seq<char>, variables: Seq<(Seq<char>, Seq<char>)>) -> Seq<char>
    decreases variables.len(),
{
    if variables.len() == 0 {
        template
    } else {
        let t = render_seq(template, variables.drop_last());
        let (key, value) = variables.last();
        replace_seq(replace_seq(t, "{{"@ + key + "}}"@, value), "{{ "@ + key + " }}"@, value)
    }
}

/// Fills a template's placeholders from the variables.
pub fn render_template(template: &str, variables: &Vec<(String, String)>) -> (r: String)
    ensures
        r@ == render_seq(template@, pairs_view(variables@)),
{
    let mut rendered = owned(template);
    let mut i: usize = 0;
    proof {
        assert(pairs_view(variables@).subrange(0, 0) =~= Seq::<(Seq<char>, Seq<char>)>::empty());
    }
    while i < variables.len()
        invariant
            i <= variables@.len(),
            rendered@ == render_seq(template@, pairs_view(variables@).subrange(0, i as int)),
        decreases variables.len() - i,
    {
        proof {
            reveal_strlit("{{");
            reveal_strlit("}}");
            reveal_strlit("{{ ");
            reveal_strlit(" }}");
            assert(pairs_view(variables@).subrange(0, i + 1).drop_last() =~= pairs_view(variables@).subrange(0, i as int));
        }
        let mut plain = owned("{{");
        plain.append(variables[i].0.as_str());
        plain.append("}}");
        let mut spaced = owned("{{ ");
        spaced.append(variables[i].0.as_str());
        spaced.append(" }}");
        rendered = replace_str(rendered.as_str(), plain.as_str(), variables[i].1.as_str());
        rendered = replace_str(rendered.as_str(), spaced.as_str(), variables[i].1.as_str());
        i += 1;
    }
    proof {
        assert(pairs_view(variables@).subrange(0, i as int) =~= pairs_view(variables@));
    }
    rendered
}

pub open spec fn bool_label(value: bool) -> Seq<char> {
    if value {
        "enabled"@
    } else {
        "disabled"@
    }
}

/// The default visibilities of the mobile tools: the common ones direct, the rare ones on
/// search, and a raw shell hidden.
pub open spec fn default_visibility_pairs() -> Seq<(Seq<char>, ToolVisibility)> {
    let s = Seq::empty();
    let s = assoc_insert(s, "screenshot"@, ToolVisibility::Direct);
    let s = assoc_insert(s, "ui_state"@, ToolVisibility::Direct);
    let s = assoc_insert(s, "click"@, ToolVisibility::Direct);
    let s = assoc_insert(s, "click_at"@, ToolVisibility::Direct);
    let s = assoc_insert(s, "type"@, ToolVisibility::Direct);
    let s = assoc_insert(s, "swipe"@, ToolVisibility::Direct);
    let s = assoc_insert(s, "wait"@, ToolVisibility::Direct);
    let s = assoc_insert(s, "complete"@, ToolVisibility::Direct);
    let s = assoc_insert(s, "click_area"@, ToolVisibility::Searchable);
    let s = assoc_insert(s, "long_press"@, ToolVisibility::Searchable);
    let s = assoc_insert(s, "long_press_at"@, ToolVisibility::Searchable);
    let s = assoc_insert(s, "system_button"@, ToolVisibility::Searchable);
    let s = assoc_insert(s, "type_secret"@, ToolVisibility::Searchable);
    let s = assoc_insert(s, "remember"@, ToolVisibility::Searchable);
    let s = assoc_insert(s, "open_app"@, ToolVisibility::Searchable);
    let s = assoc_insert(s, "search_database"@, ToolVisibility::Searchable);
    assoc_insert(s, "raw_adb_shell"@, ToolVisibility::Hidden)
}

pub fn default_tool_visibility() -> (r: Vec<(String, ToolVisibility)>)
    ensures
        assoc_sorted(pairs_view(r@)),
        pairs_view(r@) == default_visibility_pairs(),
{
    let mut v: Vec<(String, ToolVisibility)> = Vec::new();
    proof {
        assert(pairs_view(v@) =~= Seq::empty());
    }
    assoc_set(&mut v, "screenshot", ToolVisibility::Direct);
    assoc_set(&mut v, "ui_state", ToolVisibility::Direct);
    assoc_set(&mut v, "click", ToolVisibility::Direct);
    assoc_set(&mut v, "click_at", ToolVisibility::Direct);
    assoc_set(&mut v, "type", ToolVisibility::Direct);
    assoc_set(&mut v, "swipe", ToolVisibility::Direct);
    assoc_set(&mut v, "wait", ToolVisibility::Direct);
    assoc_set(&mut v, "complete", ToolVisibility::Direct);
    assoc_set(&mut v, "click_area", ToolVisibility::Searchable);
    assoc_set(&mut v, "long_press", ToolVisibility::Searchable);
    assoc_set(&mut v, "long_press_at", ToolVisibility::Searchable);
    assoc_set(&mut v, "system_button", ToolVisibility::Searchable);
    assoc_set(&mut v, "type_secret", ToolVisibility::Searchable);
    assoc_set(&mut v, "remember", ToolVisibility::Searchable);
    assoc_set(&mut v, "open_app", ToolVisibility::Searchable);
    assoc_set(&mut v, "search_database", ToolVisibility::Searchable);
    assoc_set(&mut v, "raw_adb_shell", ToolVisibility::Hidden);
    v
}

/// Pairs set one after another into an ordered map.
pub open spec fn visibility_map(pairs: Seq<(Seq<char>, ToolVisibility)>) -> Seq<(Seq<char>, ToolVisibility)>
    decreases pairs.len(),
{
    if pairs.len() == 0 {
        Seq::empty()
    } else {
        assoc_insert(visibility_map(pairs.drop_last()), pairs.last().0, pairs.last().1)
    }
}

impl MobileRunLikeConfig {
    /// The configuration used at the boundary: a fast agent searching a demo shop.
    pub fn boundary_default() -> (r: MobileRunLikeConfig)
        ensures
            r.agent_name@ == "mobilerun_like_fast_agent"@ && r.mode == ExecutionMode::Fast && r.goal@ == DEFAULT_GOAL@,
            r.max_steps == 30 && r.step_timeout_seconds == 10 && r.vision_enabled,
            r.custom_instruction matches Some(c) && c@ == DEFAULT_INSTRUCTION@,
            assoc_sorted(pairs_view(r.variables@)),
            pairs_view(r.variables@) == assoc_insert(assoc_insert(Seq::empty(), "app_name"@, "Demo Shop"@), "search_term"@, "wireless charger"@),
            r.prompt_set.fast_system@ == FAST_SYSTEM@ && r.prompt_set.reasoning_system@ == REASONING_SYSTEM@ && r.prompt_set.user_task@ == USER_TASK@,
    {
        let mut variables: Vec<(String, String)> = Vec::new();
        proof {
            assert(pairs_view(variables@) =~= Seq::empty());
        }
        assoc_set(&mut variables, "app_name", owned("Demo Shop"));
        assoc_set(&mut variables, "search_term", owned("wireless charger"));
        MobileRunLikeConfig {
            agent_name: owned("mobilerun_like_fast_agent"),
            mode: ExecutionMode::Fast,
            goal: owned(DEFAULT_GOAL),
            max_steps: 30,
            step_timeout_seconds: 10,
            vision_enabled: true,
            custom_instruction: Some(owned(DEFAULT_INSTRUCTION)),
            variables,
            prompt_set: PromptSet { fast_system: owned(FAST_SYSTEM), reasoning_system: owned(REASONING_SYSTEM), user_task: owned(USER_TASK) },
        }
    }

    /// The system prompt: the mode's template with the variables, the step limit, the
    /// timeout and the vision setting filled in, then the custom instruction if there is one.
    pub open spec fn system_prompt_view(&self) -> Seq<char> {
        let template = match self.mode {
            ExecutionMode::Fast => self.prompt_set.fast_system@,
            ExecutionMode::Reasoning => self.prompt_set.reasoning_system@,
        };
        let p = replace_seq(
            replace_seq(
                replace_seq(render_seq(template, pairs_view(self.variables@)), "{{max_steps}}"@, decimal(self.max_steps as nat)),
                "{{step_timeout_seconds}}"@,
                decimal(self.step_timeout_seconds as nat),
            ),
            "{{vision_enabled}}"@,
            bool_label(self.vision_enabled),
        );
        match self.custom_instruction {
            Some(c) => p + "\n\nCustom instruction:\n"@ + c@,
            None => p,
        }
    }

    pub fn render_system_prompt(&self) -> (r: String)
        requires
            self.max_steps <= u64::MAX,
        ensures
            r@ == self.system_prompt_view(),
    {
        proof {
            reveal_strlit("{{max_steps}}");
            reveal_strlit("{{step_timeout_seconds}}");
            reveal_strlit("{{vision_enabled}}");
        }
        let template = match self.mode {
            ExecutionMode::Fast => self.prompt_set.fast_system.as_str(),
            ExecutionMode::Reasoning => self.prompt_set.reasoning_system.as_str(),
        };
        let rendered = render_template(template, &self.variables);
        let steps = to_decimal(self.max_steps as u64);
        let timeout = to_decimal(self.step_timeout_seconds);
        let label = if self.vision_enabled { "enabled" } else { "disabled" };
        let a = replace_str(rendered.as_str(), "{{max_steps}}", steps.as_str());
        let b = replace_str(a.as_str(), "{{step_timeout_seconds}}", timeout.as_str());
        let mut prompt = replace_str(b.as_str(), "{{vision_enabled}}", label);
        match &self.custom_instruction {
            Some(c) => {
                prompt.append("\n\nCustom instruction:\n");
                prompt.append(c.as_str());
            },
            None => {},
        }
        prompt
    }

    /// The user prompt: the task template with the variables and the rendered goal filled in.
    pub fn render_user_prompt(&self) -> (r: String)
        ensures
            r@ == replace_seq(render_seq(self.prompt_set.user_task@, pairs_view(self.variables@)), "{{goal}}"@,
                render_seq(self.goal@, pairs_view(self.variables@))),
    {
        proof {
            reveal_strlit("{{goal}}");
        }
        let task = render_template(self.prompt_set.user_task.as_str(), &self.variables);
        let goal = render_template(self.goal.as_str(), &self.variables);
        replace_str(task.as_str(), "{{goal}}", goal.as_str())
    }

    /// The agent's definition with the given tool visibilities (set in the given order).
    pub fn agent_definition_with_tool_visibility(&self, tool_visibility: Vec<(String, ToolVisibility)>) -> (r: AgentCoreResult<AgentDefinition>)
        requires
            self.max_steps <= u64::MAX,
        ensures
            definition_error(self.agent_name@, self.system_prompt_view()) matches Some(t) ==> (r matches Err(AgentCoreError::InvalidConfig(m)) && m@ == t),
            definition_error(self.agent_name@, self.system_prompt_view()) is None ==> (r matches Ok(d) && d.name_view() == self.agent_name@
                && d.prompt_view() == self.system_prompt_view() && d.visibility_view() == visibility_map(pairs_view(tool_visibility@))),
    {
        let prompt = self.render_system_prompt();
        let mut builder = AgentDefinitionBuilder::new().name(self.agent_name.as_str()).system_prompt(prompt.as_str());
        let mut i: usize = 0;
        proof {
            assert(pairs_view(tool_visibility@).subrange(0, 0) =~= Seq::<(Seq<char>, ToolVisibility)>::empty());
        }
        while i < tool_visibility.len()
            invariant
                i <= tool_visibility@.len(),
                builder.wf(),
                builder.name_view() == Some(self.agent_name@),
                builder.prompt_view() == Some(prompt@),
                builder.visibility_view() == visibility_map(pairs_view(tool_visibility@).subrange(0, i as int)),
            decreases tool_visibility.len() - i,
        {
            proof {
                assert(pairs_view(tool_visibility@).subrange(0, i + 1).drop_last() =~= pairs_view(tool_visibility@).subrange(0, i as int));
            }
            builder = builder.tool_visibility(tool_visibility[i].0.as_str(), tool_visibility[i].1);
            i += 1;
        }
        proof {
            assert(pairs_view(tool_visibility@).subrange(0, i as int) =~= pairs_view(tool_visibility@));
        }
        builder.build()
    }

    /// The agent's definition with the default tool visibilities.
    pub fn agent_definition(&self) -> (r: AgentCoreResult<AgentDefinition>)
        requires
            self.max_steps <= u64::MAX,
        ensures
            definition_error(self.agent_name@, self.system_prompt_view()) is Some ==> r is Err,
            definition_error(self.agent_name@, self.system_prompt_view()) is None ==> (r matches Ok(d) && d.name_view() == self.agent_name@
                && d.prompt_view() == self.system_prompt_view()),
    {
        self.agent_definition_with_tool_visibility(default_tool_visibility())
    }
}

} // verus!

verus! {

/// How many mobile tools the boundary's tool pack offers.
pub fn expected_action_count() -> (r: usize)
    ensures
        r == 17,
{
    17
}

} // verus!
