//! Agent definitions: a named agent, its system prompt and how each tool is offered to it.

use vstd::prelude::*;
use crate::assoc::{assoc_find, assoc_get, assoc_insert, assoc_set, assoc_sorted, pairs_view};
use crate::error::{AgentCoreError, AgentCoreResult};
use crate::text::{is_blank, owned, str_is_blank};

verus! {

/// How a tool is offered to an agent.
#[derive(Debug, Clone, Copy, PartialEq, Eq, Structural)]
pub enum ToolVisibility {
    Direct,
    Searchable,
    Hidden,
}

impl View for ToolVisibility {
    type V = ToolVisibility;

    open spec fn view(&self) -> ToolVisibility {
        *self
    }
}

/// Why a definition is refused, if it is.
pub open spec fn definition_error(name: Seq<char>, system_prompt: Seq<char>) -> Option<Seq<char>> {
    if is_blank(name) {
        Some("agent name must not be empty"@)
    } else if is_blank(system_prompt) {
        Some("system prompt must not be empty"@)
    } else {
        None
    }
}

/// A validated agent definition: a non-blank name and system prompt, and a visibility per
/// tool name (a map ordered by tool name).
#[derive(Debug, PartialEq, Eq)]
pub struct AgentDefinition {
    name: String,
    system_prompt: String,
    tool_visibility: Vec<(String, ToolVisibility)>,
}

impl AgentDefinition {
    #[verifier::type_invariant]
    spec fn sorted_visibility(&self) -> bool {
        assoc_sorted(pairs_view(self.tool_visibility@))
    }

    /// The tool visibilities are ordered by tool name, each name once.
    pub fn check_wf(&self)
        ensures
            assoc_sorted(self.visibility_view()),
    {
        proof {
            use_type_invariant(self);
        }
    }

    pub closed spec fn name_view(&self) -> Seq<char> {
        self.name@
    }

    pub closed spec fn prompt_view(&self) -> Seq<char> {
        self.system_prompt@
    }

    pub closed spec fn visibility_view(&self) -> Seq<(Seq<char>, ToolVisibility)> {
        pairs_view(self.tool_visibility@)
    }

    /// A definition from its parts; refused (`InvalidConfig`) when the name or the prompt is blank.
    pub fn new(name: &str, system_prompt: &str, tool_visibility: Vec<(String, ToolVisibility)>) -> (r: AgentCoreResult<AgentDefinition>)
        requires
            assoc_sorted(pairs_view(tool_visibility@)),
        ensures
            definition_error(name@, system_prompt@) matches Some(t) ==> (r matches Err(AgentCoreError::InvalidConfig(m)) && m@ == t),
            definition_error(name@, system_prompt@) is None ==> (r matches Ok(d) && d.name_view() == name@ && d.prompt_view() == system_prompt@
                && d.visibility_view() == pairs_view(tool_visibility@)),
    {
        let definition = AgentDefinition { name: owned(name), system_prompt: owned(system_prompt), tool_visibility };
        match definition.validate() {
            Ok(()) => Ok(definition),
            Err(e) => Err(e),
        }
    }

    pub fn name(&self) -> (r: &str)
        ensures
            r@ == self.name_view(),
    {
        self.name.as_str()
    }

    pub fn system_prompt(&self) -> (r: &str)
        ensures
            r@ == self.prompt_view(),
    {
        self.system_prompt.as_str()
    }

    pub fn tool_visibility(&self) -> (r: &Vec<(String, ToolVisibility)>)
        ensures
            pairs_view(r@) == self.visibility_view(),
    {
        &self.tool_visibility
    }

    /// The visibility given to one tool, if any.
    pub fn visibility_of(&self, tool_name: &str) -> (r: Option<ToolVisibility>)
        ensures
            r == assoc_get(self.visibility_view(), tool_name@),
    {
        proof {
            use_type_invariant(self);
        }
        match assoc_find(&self.tool_visibility, tool_name) {
            Some(v) => Some(*v),
            None => None,
        }
    }

    /// Checks the name, then the prompt.
    pub fn validate(&self) -> (r: AgentCoreResult<()>)
        ensures
            definition_error(self.name_view(), self.prompt_view()) matches Some(t) ==> (r matches Err(AgentCoreError::InvalidConfig(m)) && m@ == t),
            definition_error(self.name_view(), self.prompt_view()) is None ==> r is Ok,
    {
        if str_is_blank(self.name.as_str()) {
            return Err(AgentCoreError::InvalidConfig(owned("agent name must not be empty")));
        }
        if str_is_blank(self.system_prompt.as_str()) {
            return Err(AgentCoreError::InvalidConfig(owned("system prompt must not be empty")));
        }
        Ok(())
    }

    pub fn dup(&self) -> (r: AgentDefinition)
        ensures
            r.name_view() == self.name_view() && r.prompt_view() == self.prompt_view() && r.visibility_view() == self.visibility_view(),
    {
        let mut v: Vec<(String, ToolVisibility)> = Vec::new();
        let mut i: usize = 0;
        while i < self.tool_visibility.len()
            invariant
                i <= self.tool_visibility@.len(),
                pairs_view(v@) == pairs_view(self.tool_visibility@).subrange(0, i as int),
            decreases self.tool_visibility.len() - i,
        {
            let ghost v0 = v@;
            v.push((owned(self.tool_visibility[i].0.as_str()), self.tool_visibility[i].1));
            proof {
                assert(pairs_view(v@) =~= pairs_view(v0).push(pairs_view(self.tool_visibility@)[i as int]));
                assert(pairs_view(v@) =~= pairs_view(self.tool_visibility@).subrange(0, i + 1));
            }
            i += 1;
        }
        proof {
            use_type_invariant(self);
            assert(pairs_view(self.tool_visibility@).subrange(0, i as int) =~= pairs_view(self.tool_visibility@));
        }
        AgentDefinition { name: owned(self.name.as_str()), system_prompt: owned(self.system_prompt.as_str()), tool_visibility: v }
    }
}

/// Collects the parts of a definition.
#[derive(Debug)]
pub struct AgentDefinitionBuilder {
    name: Option<String>,
    system_prompt: Option<String>,
    tool_visibility: Vec<(String, ToolVisibility)>,
}

impl AgentDefinitionBuilder {
    pub closed spec fn name_view(&self) -> Option<Seq<char>> {
        match &self.name {
            Some(s) => Some(s@),
            None => None,
        }
    }

    pub closed spec fn prompt_view(&self) -> Option<Seq<char>> {
        match &self.system_prompt {
            Some(s) => Some(s@),
            None => None,
        }
    }

    pub closed spec fn visibility_view(&self) -> Seq<(Seq<char>, ToolVisibility)> {
        pairs_view(self.tool_visibility@)
    }

    pub open spec fn wf(&self) -> bool {
        assoc_sorted(self.visibility_view())
    }

    pub fn new() -> (r: AgentDefinitionBuilder)
        ensures
            r.wf(),
            r.name_view() is None && r.prompt_view() is None && r.visibility_view() == Seq::<(Seq<char>, ToolVisibility)>::empty(),
    {
        let r = AgentDefinitionBuilder { name: None, system_prompt: None, tool_visibility: Vec::new() };
        assert(pairs_view(r.tool_visibility@) =~= Seq::empty());
        r
    }

    pub fn name(self, name: &str) -> (r: AgentDefinitionBuilder)
        ensures
            r.name_view() == Some(name@) && r.prompt_view() == self.prompt_view() && r.visibility_view() == self.visibility_view(),
    {
        let mut b = self;
        b.name = Some(owned(name));
        b
    }

    pub fn system_prompt(self, system_prompt: &str) -> (r: AgentDefinitionBuilder)
        ensures
            r.prompt_view() == Some(system_prompt@) && r.name_view() == self.name_view() && r.visibility_view() == self.visibility_view(),
    {
        let mut b = self;
        b.system_prompt = Some(owned(system_prompt));
        b
    }

    /// Sets one tool's visibility (a later setting for the same tool replaces the earlier).
    pub fn tool_visibility(self, tool_name: &str, visibility: ToolVisibility) -> (r: AgentDefinitionBuilder)
        requires
            self.wf(),
        ensures
            r.wf(),
            r.visibility_view() == assoc_insert(self.visibility_view(), tool_name@, visibility),
            r.name_view() == self.name_view() && r.prompt_view() == self.prompt_view(),
    {
        let mut b = self;
        assoc_set(&mut b.tool_visibility, tool_name, visibility);
        b
    }

    /// The definition; a missing name or prompt counts as empty.
    pub fn build(self) -> (r: AgentCoreResult<AgentDefinition>)
        requires
            self.wf(),
        ensures
            ({
                let name = match self.name_view() { Some(n) => n, None => Seq::empty() };
                let prompt = match self.prompt_view() { Some(p) => p, None => Seq::empty() };
                &&& definition_error(name, prompt) matches Some(t) ==> (r matches Err(AgentCoreError::InvalidConfig(m)) && m@ == t)
                &&& definition_error(name, prompt) is None ==> (r matches Ok(d) && d.name_view() == name && d.prompt_view() == prompt
                    && d.visibility_view() == self.visibility_view())
            }),
    {
        let name = match self.name {
            Some(n) => n,
            None => String::new(),
        };
        let prompt = match self.system_prompt {
            Some(p) => p,
            None => String::new(),
        };
        AgentDefinition::new(name.as_str(), prompt.as_str(), self.tool_visibility)
    }
}

} // verus!
