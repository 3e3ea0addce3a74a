//! The tools an agent may call, kept by name; running one call under a permission policy;
//! and adapters that load tools from elsewhere.

use vstd::prelude::*;
use crate::definition::{AgentDefinition, ToolVisibility};
use crate::error::{error_detail, error_prefix, AgentCoreError, AgentCoreResult};
use crate::assoc::assoc_get;
use crate::json::{Json, JsonV};
use crate::message::{blocks_view, BlockV, MessageRole, MessageStatus, RunMessage};
use crate::text::{
    ascii_lower_seq, is_blank, lemma_seq_lt_asym, lemma_seq_lt_irrefl, lemma_seq_lt_total, lemma_seq_lt_trans, owned, seq_contains,
    seq_lt, str_contains, str_eq, str_is_blank, str_lt, to_ascii_lower, trim_seq, trim_str,
};
use crate::tool::{
    AllowAllToolPermissionPolicy, ResultV, Tool, ToolMetadata, ToolInvocation, ToolOutput, ToolPermissionContext, ToolPermissionDecision,
    ToolPermissionPolicy, ToolResult, ToolResultStatus, ContentV,
};
use crate::tool_schema::{schema_error, SchemaV, ToolSchema};

verus! {

/// A registered tool as the registry sees it: its name, its schema and its default visibility.
pub struct EntryV {
    pub name: Seq<char>,
    pub schema: SchemaV,
    pub default_visibility: ToolVisibility,
}

struct ToolSlot {
    name: String,
    metadata: ToolMetadata,
    tool: Box<dyn Tool>,
}

fn tool_slot<T: Tool + 'static>(name: String, metadata: ToolMetadata, tool: T) -> (r: ToolSlot)
    ensures
        r.name == name && r.metadata == metadata,
{
    ToolSlot { name, metadata, tool: Box::new(tool) }
}

spec fn entries_of(v: Seq<ToolSlot>) -> Seq<EntryV> {
    Seq::new(v.len(), |i: int| EntryV { name: v[i].name@, schema: v[i].metadata.schema@, default_visibility: v[i].metadata.default_visibility })
}

/// Names strictly increasing: ordered, each once.
pub open spec fn names_sorted(s: Seq<EntryV>) -> bool {
    forall|i: int, j: int| 0 <= i < j < s.len() ==> seq_lt(#[trigger] s[i].name, #[trigger] s[j].name)
}

pub open spec fn has_name(s: Seq<EntryV>, name: Seq<char>) -> bool {
    exists|i: int| 0 <= i < s.len() && #[trigger] s[i].name == name
}

/// The visibility a tool has for an agent: the agent's setting for it, else the tool's default.
pub open spec fn visibility_for(definition: AgentDefinition, e: EntryV) -> ToolVisibility {
    match assoc_get(definition.visibility_view(), e.name) {
        Some(v) => v,
        None => e.default_visibility,
    }
}

/// The schemas of the entries with the given visibility, in name order.
pub open spec fn schemas_with(definition: AgentDefinition, s: Seq<EntryV>, vis: ToolVisibility) -> Seq<SchemaV>
    decreases s.len(),
{
    if s.len() == 0 {
        Seq::empty()
    } else {
        let rest = schemas_with(definition, s.drop_last(), vis);
        if visibility_for(definition, s.last()) == vis {
            rest.push(s.last().schema)
        } else {
            rest
        }
    }
}

/// The positions of the entries with the given visibility, in order.
pub open spec fn positions_with(definition: AgentDefinition, s: Seq<EntryV>, vis: ToolVisibility) -> Seq<int>
    decreases s.len(),
{
    if s.len() == 0 {
        Seq::empty()
    } else {
        let rest = positions_with(definition, s.drop_last(), vis);
        if visibility_for(definition, s.last()) == vis {
            rest.push(s.len() - 1)
        } else {
            rest
        }
    }
}

pub open spec fn schemas_view(v: Seq<ToolSchema>) -> Seq<SchemaV> {
    Seq::new(v.len(), |i: int| v[i]@)
}

/// The entry a tool's metadata makes.
pub open spec fn entry_of(m: ToolMetadata) -> EntryV {
    EntryV { name: m.schema.name@, schema: m.schema@, default_visibility: m.default_visibility }
}

/// What registering a tool that declares `m` did: refused a schema that is refused, with its
/// message; refused a name already registered; otherwise put the tool's entry among the
/// others, in name order.
pub open spec fn tool_registered(before: Seq<EntryV>, after: Seq<EntryV>, m: ToolMetadata, r: AgentCoreResult<()>) -> bool {
    match schema_error(m.schema.name@, m.schema.description@, m.schema.input_schema.view()) {
        Some(t) => r matches Err(AgentCoreError::InvalidConfig(s)) && s@ == t && after == before,
        None => if has_name(before, m.schema.name@) {
            &&& r matches Err(AgentCoreError::InvalidConfig(s)) && s@ == "tool `"@ + m.schema.name@ + "` already registered"@
            &&& after == before
        } else {
            &&& r is Ok
            &&& exists|p: int| 0 <= p <= before.len() && after == before.insert(p, entry_of(m))
        },
    }
}

/// The tools, by name.
pub struct ToolRegistry {
    tools: Vec<ToolSlot>,
}

impl ToolRegistry {
    pub closed spec fn entries(&self) -> Seq<EntryV> {
        entries_of(self.tools@)
    }

    #[verifier::type_invariant]
    spec fn inv(&self) -> bool {
        &&& names_sorted(self.entries())
        &&& forall|i: int| 0 <= i < self.tools@.len() ==> (#[trigger] self.tools@[i]).name@ == self.tools@[i].metadata.schema.name@
    }

    /// The tools are ordered by name, each name once.
    pub fn check_wf(&self)
        ensures
            names_sorted(self.entries()),
    {
        proof {
            use_type_invariant(self);
        }
    }

    pub fn new() -> (r: ToolRegistry)
        ensures
            r.entries() == Seq::<EntryV>::empty(),
    {
        let r = ToolRegistry { tools: Vec::new() };
        assert(entries_of(r.tools@) =~= Seq::empty());
        r
    }

    /// Registers a tool under the name its metadata gives: refused when its schema is refused
    /// or a tool of that name is registered; otherwise it takes its place in name order.
    /// What the tool declares is read once, here.
    pub fn register<T: Tool + 'static>(&mut self, tool: T) -> (r: AgentCoreResult<()>)
        ensures
            r matches Err(e) ==> e is InvalidConfig && final(self).entries() == old(self).entries(),
            r is Ok ==> exists|p: int, e: EntryV| #![trigger old(self).entries().insert(p, e)]
                0 <= p <= old(self).entries().len()
                && final(self).entries() == old(self).entries().insert(p, e)
                && !has_name(old(self).entries(), e.name)
                && schema_error(e.schema.name, e.schema.description, e.schema.input) is None,
            exists|m: ToolMetadata| #![trigger tool.declares(m)]
                tool.declares(m) && tool_registered(old(self).entries(), final(self).entries(), m, r),
    {
        proof {
            use_type_invariant(&*self);
        }
        let declared = tool.metadata();
        let ghost m = *declared;
        let metadata = declared.dup();
        match metadata.schema.validate_metadata() {
            Ok(()) => {},
            Err(e) => {
                return Err(e);
            },
        }
        let name = owned(metadata.name());
        let ghost s0 = self.entries();
        let mut p: usize = 0;
        while p < self.tools.len() && str_lt(self.tools[p].name.as_str(), name.as_str())
            invariant
                p <= self.tools@.len(),
                s0 == entries_of(self.tools@),
                names_sorted(s0),
                forall|k: int| 0 <= k < p ==> seq_lt(#[trigger] s0[k].name, name@),
            decreases self.tools.len() - p,
        {
            p += 1;
        }
        if p < self.tools.len() && str_eq(self.tools[p].name.as_str(), name.as_str()) {
            let mut t = owned("tool `");
            t.append(name.as_str());
            t.append("` already registered");
            proof {
                assert(s0[p as int].name == name@);
                assert(has_name(s0, m.schema.name@));
                assert(t@ =~= "tool `"@ + m.schema.name@ + "` already registered"@);
            }
            return Err(AgentCoreError::InvalidConfig(t));
        }
        proof {
            assert forall|k: int| p <= k < s0.len() implies seq_lt(name@, #[trigger] s0[k].name) by {
                lemma_seq_lt_total(name@, s0[p as int].name);
                if k > p {
                    lemma_seq_lt_trans(name@, s0[p as int].name, s0[k].name);
                }
            }
            assert forall|k: int| 0 <= k < s0.len() implies (#[trigger] s0[k]).name != name@ by {
                if k < p {
                    lemma_seq_lt_irrefl(name@);
                } else {
                    lemma_seq_lt_irrefl(name@);
                }
            }
        }
        let ghost e = EntryV { name: name@, schema: metadata.schema@, default_visibility: metadata.default_visibility };
        let slot = tool_slot(name, metadata, tool);
        let mut tools: Vec<ToolSlot> = Vec::new();
        std::mem::swap(&mut tools, &mut self.tools);
        tools.insert(p, slot);
        proof {
            let s1 = entries_of(tools@);
            assert(s1 =~= s0.insert(p as int, e));
            assert forall|i: int, j: int| 0 <= i < j < s1.len() implies seq_lt(#[trigger] s1[i].name, #[trigger] s1[j].name) by {
                if j < p {
                } else if j == p {
                } else if i == p {
                } else if i < p {
                    lemma_seq_lt_trans(s0[i].name, name@, s0[j - 1].name);
                } else {
                }
            }
            assert(forall|i: int| 0 <= i < tools@.len() ==> (#[trigger] tools@[i]).name@ == tools@[i].metadata.schema.name@);
        }
        self.tools = tools;
        Ok(())
    }

    /// The position of a name, if registered.
    fn position(&self, name: &str) -> (r: Option<usize>)
        ensures
            r matches Some(p) ==> p < self.entries().len() && self.entries()[p as int].name == name@,
            r is None ==> !has_name(self.entries(), name@),
    {
        proof {
            use_type_invariant(self);
        }
        let mut i: usize = 0;
        while i < self.tools.len()
            invariant
                i <= self.tools@.len(),
                forall|k: int| 0 <= k < i ==> (#[trigger] self.entries()[k]).name != name@,
            decreases self.tools.len() - i,
        {
            if str_eq(self.tools[i].name.as_str(), name) {
                return Some(i);
            }
            i += 1;
        }
        None
    }

    /// Whether the tool at position `i` may give `out` when handed `inv` (see
    /// [`Tool::invokes`]).
    pub closed spec fn invokes_at(&self, i: int, inv: ToolInvocation, out: AgentCoreResult<ToolOutput>) -> bool {
        self.tools@[i].tool.invokes(inv, out)
    }

    /// Whether a tool of this name is registered.
    pub fn contains(&self, name: &str) -> (r: bool)
        ensures
            r == has_name(self.entries(), name@),
    {
        self.position(name).is_some()
    }

    /// Whether the tool registered under a name may run ahead of time: read-only,
    /// idempotent and not destructive.
    pub closed spec fn preexecutable(&self, name: Seq<char>) -> bool {
        let m = self.tools@[index_of(self.entries(), name)].metadata;
        m.capabilities.read_only && m.capabilities.idempotent && !m.capabilities.destructive
    }

    /// The metadata registered under a name.
    pub fn metadata_of(&self, name: &str) -> (r: Option<&ToolMetadata>)
        ensures
            r is Some <==> has_name(self.entries(), name@),
            r matches Some(m) ==> m.schema@ == self.entries()[index_of(self.entries(), name@)].schema,
            r matches Some(m) ==> m.schema.name@ == name@
                && (m.capabilities.read_only && m.capabilities.idempotent && !m.capabilities.destructive) == self.preexecutable(name@),
    {
        proof {
            use_type_invariant(self);
        }
        match self.position(name) {
            Some(p) => {
                proof {
                    lemma_index_of(self.entries(), name@, p as int);
                }
                Some(&self.tools[p].metadata)
            },
            None => None,
        }
    }

    /// The tool registered under a name.
    pub fn get(&self, name: &str) -> (r: Option<&Box<dyn Tool>>)
        ensures
            r is Some <==> has_name(self.entries(), name@),
    {
        match self.position(name) {
            Some(p) => Some(&self.tools[p].tool),
            None => None,
        }
    }

    /// The visibility a tool has for an agent: the agent's setting, else the tool's default.
    pub fn visibility_for_agent(&self, definition: &AgentDefinition, metadata: &ToolMetadata) -> (r: ToolVisibility)
        ensures
            r == (match assoc_get(definition.visibility_view(), metadata.schema.name@) {
                Some(v) => v,
                None => metadata.default_visibility,
            }),
    {
        match definition.visibility_of(metadata.name()) {
            Some(v) => v,
            None => metadata.default_visibility,
        }
    }

    /// The tool under a name, for an agent: refused when there is none or when it is hidden
    /// from that agent.
    pub fn get_for_agent(&self, definition: &AgentDefinition, name: &str) -> (r: AgentCoreResult<&Box<dyn Tool>>)
        ensures
            !has_name(self.entries(), name@) ==> (r matches Err(AgentCoreError::NotFound(t)) && t@ == "tool `"@ + name@ + "` not found"@),
            has_name(self.entries(), name@) ==> {
                let e = self.entries()[index_of(self.entries(), name@)];
                &&& visibility_for(*definition, e) == ToolVisibility::Hidden ==> (r matches Err(AgentCoreError::PermissionDenied(t))
                    && t@ == "tool `"@ + name@ + "` is hidden for agent `"@ + definition.name_view() + "`"@)
                &&& visibility_for(*definition, e) != ToolVisibility::Hidden ==> r is Ok
            },
            r matches Ok(t) ==> forall|inv: ToolInvocation, out: AgentCoreResult<ToolOutput>| #[trigger] t.invokes(inv, out)
                == self.invokes_at(index_of(self.entries(), name@), inv, out),
    {
        let p = match self.position(name) {
            Some(p) => p,
            None => {
                let mut t = owned("tool `");
                t.append(name);
                t.append("` not found");
                return Err(AgentCoreError::NotFound(t));
            },
        };
        proof {
            use_type_invariant(self);
            lemma_index_of(self.entries(), name@, p as int);
        }
        let vis = self.visibility_for_agent(definition, &self.tools[p].metadata);
        if vis == ToolVisibility::Hidden {
            let mut t = owned("tool `");
            t.append(name);
            t.append("` is hidden for agent `");
            t.append(definition.name());
            t.append("`");
            return Err(AgentCoreError::PermissionDenied(t));
        }
        Ok(&self.tools[p].tool)
    }

    /// The registered names, in order.
    pub fn names(&self) -> (r: Vec<String>)
        ensures
            r@.len() == self.entries().len(),
            forall|i: int| 0 <= i < r@.len() ==> (#[trigger] r@[i])@ == self.entries()[i].name,
    {
        let mut out: Vec<String> = Vec::new();
        let mut i: usize = 0;
        while i < self.tools.len()
            invariant
                i <= self.tools@.len(),
                out@.len() == i,
                forall|k: int| 0 <= k < i ==> (#[trigger] out@[k])@ == self.entries()[k].name,
            decreases self.tools.len() - i,
        {
            out.push(owned(self.tools[i].name.as_str()));
            i += 1;
        }
        out
    }

    /// The schemas of the tools with a given visibility for an agent, in name order.
    pub fn schemas_with_visibility(&self, definition: &AgentDefinition, vis: ToolVisibility) -> (r: Vec<ToolSchema>)
        ensures
            schemas_view(r@) == schemas_with(*definition, self.entries(), vis),
    {
        let mut out: Vec<ToolSchema> = Vec::new();
        let mut i: usize = 0;
        proof {
            assert(self.entries().subrange(0, 0) =~= Seq::<EntryV>::empty());
            assert(schemas_view(out@) =~= Seq::empty());
        }
        while i < self.tools.len()
            invariant
                i <= self.tools@.len(),
                schemas_view(out@) == schemas_with(*definition, self.entries().subrange(0, i as int), vis),
            decreases self.tools.len() - i,
        {
            proof {
                use_type_invariant(self);
                assert(self.entries().subrange(0, i + 1).drop_last() =~= self.entries().subrange(0, i as int));
                assert(self.entries()[i as int].name == self.tools@[i as int].metadata.schema.name@);
            }
            let v = self.visibility_for_agent(definition, &self.tools[i].metadata);
            if v == vis {
                let ghost o0 = schemas_view(out@);
                out.push(self.tools[i].metadata.schema.dup());
                proof {
                    assert(schemas_view(out@) =~= o0.push(self.tools@[i as int].metadata.schema@));
                }
            }
            i += 1;
        }
        proof {
            assert(self.entries().subrange(0, i as int) =~= self.entries());
        }
        out
    }

    /// The schemas of the tools offered directly to an agent.
    /// The tools with the given visibility for the agent, in name order: the `k`-th is the
    /// tool at the `k`-th such position (see [`positions_with`]).
    pub fn tools_with_visibility(&self, definition: &AgentDefinition, vis: ToolVisibility) -> (r: Vec<&Box<dyn Tool>>)
        ensures
            r@.len() == positions_with(*definition, self.entries(), vis).len(),
            forall|k: int, inv: ToolInvocation, out: AgentCoreResult<ToolOutput>| 0 <= k < r@.len() ==>
                (#[trigger] r@[k].invokes(inv, out) == self.invokes_at(positions_with(*definition, self.entries(), vis)[k], inv, out)),
    {
        let mut out: Vec<&Box<dyn Tool>> = Vec::new();
        let mut i: usize = 0;
        proof {
            assert(self.entries().subrange(0, 0) =~= Seq::<EntryV>::empty());
        }
        while i < self.tools.len()
            invariant
                i <= self.tools@.len(),
                out@.len() == positions_with(*definition, self.entries().subrange(0, i as int), vis).len(),
                forall|k: int| 0 <= k < out@.len() ==> *(#[trigger] out@[k])
                    == self.tools@[positions_with(*definition, self.entries().subrange(0, i as int), vis)[k]].tool,
            decreases self.tools.len() - i,
        {
            let ghost ps = positions_with(*definition, self.entries().subrange(0, i as int), vis);
            proof {
                use_type_invariant(self);
                assert(self.entries().subrange(0, i + 1).drop_last() =~= self.entries().subrange(0, i as int));
                assert(self.entries().subrange(0, i + 1).last() == self.entries()[i as int]);
                assert(self.entries()[i as int].name == self.tools@[i as int].metadata.schema.name@);
            }
            let v = self.visibility_for_agent(definition, &self.tools[i].metadata);
            if v == vis {
                out.push(&self.tools[i].tool);
                proof {
                    assert(positions_with(*definition, self.entries().subrange(0, i + 1), vis) == ps.push(i as int));
                }
            }
            i += 1;
        }
        proof {
            assert(self.entries().subrange(0, i as int) =~= self.entries());
        }
        out
    }

    /// The tools offered directly to the agent.
    pub fn direct_tools(&self, definition: &AgentDefinition) -> (r: Vec<&Box<dyn Tool>>)
        ensures
            r@.len() == positions_with(*definition, self.entries(), ToolVisibility::Direct).len(),
            forall|k: int, inv: ToolInvocation, out: AgentCoreResult<ToolOutput>| 0 <= k < r@.len() ==>
                (#[trigger] r@[k].invokes(inv, out) == self.invokes_at(positions_with(*definition, self.entries(), ToolVisibility::Direct)[k], inv, out)),
    {
        self.tools_with_visibility(definition, ToolVisibility::Direct)
    }

    /// The tools the agent finds by search.
    pub fn searchable_tools(&self, definition: &AgentDefinition) -> (r: Vec<&Box<dyn Tool>>)
        ensures
            r@.len() == positions_with(*definition, self.entries(), ToolVisibility::Searchable).len(),
            forall|k: int, inv: ToolInvocation, out: AgentCoreResult<ToolOutput>| 0 <= k < r@.len() ==>
                (#[trigger] r@[k].invokes(inv, out) == self.invokes_at(positions_with(*definition, self.entries(), ToolVisibility::Searchable)[k], inv, out)),
    {
        self.tools_with_visibility(definition, ToolVisibility::Searchable)
    }

    pub fn direct_schemas(&self, definition: &AgentDefinition) -> (r: Vec<ToolSchema>)
        ensures
            schemas_view(r@) == schemas_with(*definition, self.entries(), ToolVisibility::Direct),
    {
        self.schemas_with_visibility(definition, ToolVisibility::Direct)
    }

    /// The searchable tools that match a query (case-insensitive, by name or description;
    /// a blank query matches all), in name order, at most `limit` of them.
    pub fn search(&self, definition: &AgentDefinition, query: &str, limit: usize) -> (r: Vec<ToolSchema>)
        ensures
            schemas_view(r@) == search_result(schemas_with(*definition, self.entries(), ToolVisibility::Searchable),
                ascii_lower_seq(trim_seq(query@)), limit as int),
    {
        let q = to_ascii_lower(trim_str(query).as_str());
        let candidates = self.schemas_with_visibility(definition, ToolVisibility::Searchable);
        let ghost cs = schemas_view(candidates@);
        let mut out: Vec<ToolSchema> = Vec::new();
        let mut i: usize = 0;
        proof {
            assert(cs.subrange(0, 0) =~= Seq::<SchemaV>::empty());
            assert(schemas_view(out@) =~= Seq::empty());
        }
        while i < candidates.len()
            invariant
                i <= candidates@.len(),
                cs == schemas_view(candidates@),
                schemas_view(out@) == search_result(cs.subrange(0, i as int), q@, limit as int),
            decreases candidates.len() - i,
        {
            proof {
                assert(cs.subrange(0, i + 1).drop_last() =~= cs.subrange(0, i as int));
                assert(cs[i as int] == candidates@[i as int]@);
            }
            let c = &candidates[i];
            let hit = q.as_str().is_empty()
                || str_contains(to_ascii_lower(c.name.as_str()).as_str(), q.as_str())
                || str_contains(to_ascii_lower(c.description.as_str()).as_str(), q.as_str());
            if hit && out.len() < limit {
                let ghost o0 = schemas_view(out@);
                out.push(c.dup());
                proof {
                    assert(schemas_view(out@) =~= o0.push(cs[i as int]));
                }
            }
            i += 1;
        }
        proof {
            assert(cs.subrange(0, i as int) =~= cs);
        }
        out
    }
}

/// Whether a schema matches a lowercased query.
pub open spec fn schema_matches(s: SchemaV, q: Seq<char>) -> bool {
    q.len() == 0 || seq_contains(ascii_lower_seq(s.name), q) || seq_contains(ascii_lower_seq(s.description), q)
}

/// The matching schemas, in order, the first `limit` of them.
pub open spec fn search_result(s: Seq<SchemaV>, q: Seq<char>, limit: int) -> Seq<SchemaV>
    decreases s.len(),
{
    if s.len() == 0 {
        Seq::empty()
    } else {
        let rest = search_result(s.drop_last(), q, limit);
        if schema_matches(s.last(), q) && rest.len() < limit {
            rest.push(s.last())
        } else {
            rest
        }
    }
}

proof fn lemma_search_result_len(s: Seq<SchemaV>, q: Seq<char>, limit: int)
    ensures
        search_result(s, q, limit).len() <= s.len(),
    decreases s.len(),
{
    if s.len() > 0 {
        lemma_search_result_len(s.drop_last(), q, limit);
    }
}

proof fn lemma_search_keeps_match(s: Seq<SchemaV>, q: Seq<char>, limit: int, i: int)
    requires
        0 <= i < s.len(),
        i < limit,
        schema_matches(s[i], q),
    ensures
        search_result(s, q, limit).contains(s[i]),
    decreases s.len(),
{
    let rest = search_result(s.drop_last(), q, limit);
    let r = search_result(s, q, limit);
    lemma_search_result_len(s.drop_last(), q, limit);
    if i == s.len() - 1 {
        assert(r == rest.push(s[i]));
        assert(r[rest.len() as int] == s[i]);
    } else {
        assert(s.drop_last()[i] == s[i]);
        lemma_search_keeps_match(s.drop_last(), q, limit, i);
        let k = choose|k: int| 0 <= k < rest.len() && rest[k] == s[i];
        assert(r[k] == rest[k]);
    }
}

/// A searchable tool whose description contains the query (ignoring ASCII case and the
/// blanks around the query) is found, whatever its name, as long as fewer than `limit`
/// candidates come before it.
pub proof fn lemma_search_finds_by_description(s: Seq<SchemaV>, query: Seq<char>, limit: int, i: int)
    requires
        0 <= i < s.len(),
        i < limit,
        seq_contains(ascii_lower_seq(s[i].description), ascii_lower_seq(trim_seq(query))),
    ensures
        search_result(s, ascii_lower_seq(trim_seq(query)), limit).contains(s[i]),
{
    lemma_search_keeps_match(s, ascii_lower_seq(trim_seq(query)), limit, i);
}

/// A searchable tool whose name contains the query (ignoring ASCII case and the blanks
/// around the query) is found, as long as fewer than `limit` candidates come before it.
pub proof fn lemma_search_finds_by_name(s: Seq<SchemaV>, query: Seq<char>, limit: int, i: int)
    requires
        0 <= i < s.len(),
        i < limit,
        seq_contains(ascii_lower_seq(s[i].name), ascii_lower_seq(trim_seq(query))),
    ensures
        search_result(s, ascii_lower_seq(trim_seq(query)), limit).contains(s[i]),
{
    lemma_search_keeps_match(s, ascii_lower_seq(trim_seq(query)), limit, i);
}

/// Every tool a search gives back is one of the candidates, and the query is blank or
/// occurs in its name or its description (ignoring ASCII case); never more than `limit`.
pub proof fn lemma_search_only_matches(s: Seq<SchemaV>, q: Seq<char>, limit: int)
    requires
        0 <= limit,
    ensures
        search_result(s, q, limit).len() <= limit,
        forall|j: int| 0 <= j < search_result(s, q, limit).len() ==> {
            let t = #[trigger] search_result(s, q, limit)[j];
            &&& s.contains(t)
            &&& q.len() == 0 || seq_contains(ascii_lower_seq(t.name), q) || seq_contains(ascii_lower_seq(t.description), q)
        },
    decreases s.len(),
{
    if s.len() > 0 {
        lemma_search_only_matches(s.drop_last(), q, limit);
        let rest = search_result(s.drop_last(), q, limit);
        let r = search_result(s, q, limit);
        assert forall|j: int| 0 <= j < r.len() implies s.contains(#[trigger] r[j]) by {
            if j < rest.len() {
                assert(r[j] == rest[j]);
                let k = choose|k: int| 0 <= k < s.drop_last().len() && s.drop_last()[k] == rest[j];
                assert(s[k] == rest[j]);
            } else {
                assert(r[j] == s[s.len() - 1]);
            }
        }
    }
}

/// The index of a registered name.
pub open spec fn index_of(s: Seq<EntryV>, name: Seq<char>) -> int {
    choose|i: int| 0 <= i < s.len() && #[trigger] s[i].name == name
}

proof fn lemma_index_of(s: Seq<EntryV>, name: Seq<char>, p: int)
    requires
        names_sorted(s),
        0 <= p < s.len(),
        s[p].name == name,
    ensures
        index_of(s, name) == p,
{
    let i = index_of(s, name);
    assert(0 <= i < s.len() && s[i].name == name);
    if i < p {
        lemma_seq_lt_irrefl(name);
    } else if i > p {
        lemma_seq_lt_irrefl(name);
    }
}

/// One call of a tool, as the model asked for it.
#[derive(Debug)]
pub struct ToolCall {
    pub call_id: String,
    pub tool_name: String,
    pub arguments: Json,
    pub metadata: Vec<(String, Json)>,
}

impl ToolCall {
    pub fn new(call_id: &str, tool_name: &str, arguments: Json) -> (r: ToolCall)
        ensures
            r.call_id@ == call_id@ && r.tool_name@ == tool_name@ && r.arguments == arguments && r.metadata@.len() == 0,
    {
        ToolCall { call_id: owned(call_id), tool_name: owned(tool_name), arguments, metadata: Vec::new() }
    }
}

/// The result of a call from the tool's outcome: on success the output as JSON content,
/// its raw output and its metadata; on an error, an error result whose text is the error's
/// prefix and detail, recoverable as the error is.
pub open spec fn invocation_result(call_id: Seq<char>, tool_name: Seq<char>, outcome: AgentCoreResult<ToolOutput>, rv: ResultV) -> bool {
    match outcome {
        Ok(o) => rv == (ResultV {
            call_id,
            tool_name,
            status: ToolResultStatus::Success,
            content: seq![ContentV::Json(o.output.view())],
            raw_output: Some(o.output.view()),
            error: None,
            metadata: crate::json::object_view(o.metadata@),
        }),
        Err(e) => {
            &&& rv.call_id == call_id && rv.tool_name == tool_name && rv.status == ToolResultStatus::Error
            &&& rv.raw_output is None && rv.error is Some && (rv.error->0).1 == (e is Recoverable)
            &&& (error_detail(&e) is Some ==> (rv.error->0).0 == error_prefix(&e) + error_detail(&e)->0)
            &&& rv.content == seq![ContentV::Text((rv.error->0).0)]
        },
    }
}

/// The result of running a call whose tool answered `outcome`: its output on success, and
/// otherwise a failure carrying the error's text, recoverable when the error is.
pub fn result_of_invocation(call_id: &str, tool_name: &str, outcome: AgentCoreResult<ToolOutput>) -> (r: ToolResult)
    ensures
        invocation_result(call_id@, tool_name@, outcome, r@),
{
    match outcome {
        Ok(o) => {
            let ToolOutput { output, metadata } = o;
            let mut result = ToolResult::success(call_id, tool_name, output);
            result.metadata = metadata;
            result
        },
        Err(e) => {
            let text = e.describe();
            ToolResult::failed(call_id, tool_name, text.as_str(), e.is_recoverable())
        },
    }
}

/// Runs tool calls against a registry under a permission policy.
pub struct ToolExecutor {
    registry: std::sync::Arc<ToolRegistry>,
    permission_policy: Box<dyn ToolPermissionPolicy>,
}

fn policy_box<P: ToolPermissionPolicy + 'static>(policy: P) -> Box<dyn ToolPermissionPolicy> {
    Box::new(policy)
}

/// The message is a finished tool message with one result block answering the call `id`
/// to the tool `name`.
pub open spec fn answers_call(m: RunMessage, id: Seq<char>, name: Seq<char>) -> bool {
    &&& m.role == MessageRole::Tool
    &&& m.status == MessageStatus::Finalized
    &&& blocks_view(m.content@).len() == 1
    &&& blocks_view(m.content@)[0] matches BlockV::ToolResult { call_id, tool_name, .. }
        && call_id == id && tool_name == Some(name)
}

/// What a schema refuses of a call's arguments, with its message: anything but an object,
/// or an object missing a required argument.
pub open spec fn arguments_refusal(schema: SchemaV, args: JsonV) -> Option<Seq<char>> {
    if !(args is Object) {
        Some("tool `"@ + schema.name + "` arguments must be a JSON object"@)
    } else {
        match crate::tool_schema::first_missing_arg(schema.input, args) {
            Some(f) => Some("tool `"@ + schema.name + "` missing required argument `"@ + f + "`"@),
            None => None,
        }
    }
}

/// The context handed to the policy for a call: the agent's name, the call's id, tool and
/// arguments, and no metadata.
pub open spec fn context_for(c: ToolPermissionContext, definition: AgentDefinition, call: ToolCall) -> bool {
    &&& c.agent_name@ == definition.name_view()
    &&& c.call_id@ == call.call_id@
    &&& c.tool_name@ == call.tool_name@
    &&& c.arguments.view() == call.arguments.view()
    &&& c.metadata@.len() == 0
}

/// The arguments an allowing decision lets the tool run with.
pub open spec fn allowed_view(d: ToolPermissionDecision, original: JsonV) -> JsonV {
    match d {
        ToolPermissionDecision::Allow { arguments: Some(a) } => a.view(),
        _ => original,
    }
}

/// The invocation handed to the tool for a call, with the arguments `args`.
pub open spec fn invocation_for(inv: ToolInvocation, call: ToolCall, args: JsonV) -> bool {
    &&& inv.call_id@ == call.call_id@
    &&& inv.tool_name@ == call.tool_name@
    &&& inv.arguments.view() == args
    &&& inv.metadata == call.metadata
}

/// The denied result of a call, with the policy's reason.
pub open spec fn denied_view(call_id: Seq<char>, tool_name: Seq<char>, reason: Seq<char>) -> ResultV {
    ResultV {
        call_id,
        tool_name,
        status: ToolResultStatus::Denied,
        content: seq![ContentV::Text(reason)],
        raw_output: None,
        error: Some((reason, true)),
        metadata: Seq::empty(),
    }
}

/// What a call gives once the policy decided `d`: the policy's error unchanged; a denied
/// result for a refusal or a question; otherwise the result of the tool at position `i`
/// run with the arguments the decision allows (see [`invocation_result`]).
pub open spec fn decided_result(registry: ToolRegistry, i: int, call: ToolCall, d: AgentCoreResult<ToolPermissionDecision>, r: AgentCoreResult<ToolResult>) -> bool {
    match d {
        Err(e) => r == Err::<ToolResult, AgentCoreError>(e),
        Ok(ToolPermissionDecision::Ask { reason }) => r matches Ok(res) && res@ == denied_view(call.call_id@, call.tool_name@, reason@),
        Ok(ToolPermissionDecision::Deny { reason }) => r matches Ok(res) && res@ == denied_view(call.call_id@, call.tool_name@, reason@),
        Ok(other) => exists|inv: ToolInvocation, out: AgentCoreResult<ToolOutput>| #![trigger registry.invokes_at(i, inv, out)]
            invocation_for(inv, call, allowed_view(other, call.arguments.view()))
            && registry.invokes_at(i, inv, out)
            && (r matches Ok(res) && invocation_result(call.call_id@, call.tool_name@, out, res@)),
    }
}

impl ToolExecutor {
    pub closed spec fn registry_view(&self) -> ToolRegistry {
        *self.registry
    }

    /// Whether the executor's policy may decide `d` for the context `c` (see
    /// [`ToolPermissionPolicy::decides`]).
    pub closed spec fn policy_decides(&self, c: ToolPermissionContext, d: AgentCoreResult<ToolPermissionDecision>) -> bool {
        self.permission_policy.decides(c, d)
    }

    pub fn registry(&self) -> (r: &ToolRegistry)
        ensures
            *r == self.registry_view(),
    {
        &self.registry
    }

    /// An executor that lets every call run.
    pub fn new(registry: std::sync::Arc<ToolRegistry>) -> (r: ToolExecutor)
        ensures
            r.registry_view() == *registry,
    {
        ToolExecutor { registry, permission_policy: policy_box(AllowAllToolPermissionPolicy) }
    }

    pub fn with_permission_policy<P: ToolPermissionPolicy + 'static>(registry: std::sync::Arc<ToolRegistry>, permission_policy: P) -> (r: ToolExecutor)
        ensures
            r.registry_view() == *registry,
    {
        ToolExecutor { registry, permission_policy: policy_box(permission_policy) }
    }

    /// Runs one call: the tool must exist and be visible to the agent, and the arguments must
    /// fit its schema; then the policy decides: a refusal or a question gives a denied result,
    /// otherwise the tool runs (with the arguments the policy gives) and its outcome is the
    /// result (see [`result_of_invocation`]).
    /// What running `call` for `definition` may give (see [`execute_one`](Self::execute_one)):
    /// an unknown tool is not found; a hidden one is refused; arguments the schema refuses
    /// give its message; otherwise the result is what the policy's decision and the tool's
    /// outcome give.
    pub open spec fn execute_one_ok(&self, definition: AgentDefinition, call: ToolCall, r: AgentCoreResult<ToolResult>) -> bool {
        &&& (!has_name(self.registry_view().entries(), call.tool_name@) ==> (r matches Err(AgentCoreError::NotFound(_))))
        &&& (has_name(self.registry_view().entries(), call.tool_name@)
                && visibility_for(definition, self.registry_view().entries()[index_of(self.registry_view().entries(), call.tool_name@)])
                == ToolVisibility::Hidden ==> (r matches Err(AgentCoreError::PermissionDenied(_))))
        &&& (r matches Ok(res) ==> res@.call_id == call.call_id@ && res@.tool_name == call.tool_name@)
        &&& (has_name(self.registry_view().entries(), call.tool_name@)
                && visibility_for(definition, self.registry_view().entries()[index_of(self.registry_view().entries(), call.tool_name@)])
                != ToolVisibility::Hidden ==> {
                let i = index_of(self.registry_view().entries(), call.tool_name@);
                match arguments_refusal(self.registry_view().entries()[i].schema, call.arguments.view()) {
                    Some(t) => r matches Err(AgentCoreError::InvalidInput(s)) && s@ == t,
                    None => exists|c: ToolPermissionContext, d: AgentCoreResult<ToolPermissionDecision>| #![trigger self.policy_decides(c, d)]
                        context_for(c, definition, call) && self.policy_decides(c, d) && decided_result(self.registry_view(), i, call, d, r),
                }
            })
    }

    pub fn execute_one(&self, definition: &AgentDefinition, call: ToolCall) -> (r: AgentCoreResult<ToolResult>)
        ensures
            self.execute_one_ok(*definition, call, r),
    {
        let ghost the_call = call;
        let ghost i = index_of(self.registry_view().entries(), call.tool_name@);
        let tool = match self.registry.get_for_agent(definition, call.tool_name.as_str()) {
            Ok(t) => t,
            Err(e) => {
                return Err(e);
            },
        };
        let metadata = match self.registry.metadata_of(call.tool_name.as_str()) {
            Some(m) => m,
            None => {
                return Err(AgentCoreError::NotFound(owned("tool not found")));
            },
        };
        match metadata.schema.validate_arguments(&call.arguments) {
            Ok(()) => {},
            Err(e) => {
                return Err(e);
            },
        }
        let context = ToolPermissionContext::new(definition.name(), call.call_id.as_str(), call.tool_name.as_str(), crate::json::json_dup(&call.arguments));
        let decided = self.permission_policy.decide(&context);
        let ghost dg = decided;
        proof {
            assert(context_for(context, *definition, the_call));
            assert(self.policy_decides(context, dg));
            assert(arguments_refusal(self.registry_view().entries()[i].schema, the_call.arguments.view()) is None);
        }
        let decision = match decided {
            Ok(d) => d,
            Err(e) => {
                let r: AgentCoreResult<ToolResult> = Err(e);
                assert(decided_result(self.registry_view(), i, the_call, dg, r));
                return r;
            },
        };
        let ToolCall { call_id, tool_name, arguments, metadata: call_metadata } = call;
        let arguments = match decision {
            ToolPermissionDecision::Ask { reason } | ToolPermissionDecision::Deny { reason } => {
                let r: AgentCoreResult<ToolResult> = Ok(ToolResult::denied(call_id.as_str(), tool_name.as_str(), reason.as_str()));
                assert(decided_result(self.registry_view(), i, the_call, dg, r));
                return r;
            },
            other => match other.allowed_arguments(arguments) {
                Some(a) => a,
                None => {
                    return Err(AgentCoreError::Fatal(owned("permission decision did not produce arguments")));
                },
            },
        };
        let invocation = ToolInvocation {
            call_id: owned(call_id.as_str()),
            tool_name: owned(tool_name.as_str()),
            arguments,
            metadata: call_metadata,
        };
        let ghost inv = invocation;
        let outcome = tool.invoke(invocation);
        let r: AgentCoreResult<ToolResult> = Ok(result_of_invocation(call_id.as_str(), tool_name.as_str(), outcome));
        proof {
            assert(self.registry_view().invokes_at(i, inv, outcome));
            assert(decided_result(self.registry_view(), i, the_call, dg, r));
        }
        r
    }

    /// Runs one call and gives its result as a tool message.
    pub fn execute_one_message(&self, definition: &AgentDefinition, call: ToolCall) -> (r: AgentCoreResult<RunMessage>)
        ensures
            self.call_unknown(call) ==> r matches Err(AgentCoreError::NotFound(_)),
            self.call_hidden(*definition, call) ==> r matches Err(AgentCoreError::PermissionDenied(_)),
            r matches Ok(m) ==> answers_call(m, call.call_id@, call.tool_name@),
    {
        match self.execute_one(definition, call) {
            Ok(result) => result.into_run_message(),
            Err(e) => Err(e),
        }
    }

    /// The tool a call names is not registered.
    pub open spec fn call_unknown(&self, call: ToolCall) -> bool {
        !has_name(self.registry_view().entries(), call.tool_name@)
    }

    /// The tool a call names is registered but hidden from the agent.
    pub open spec fn call_hidden(&self, definition: AgentDefinition, call: ToolCall) -> bool {
        has_name(self.registry_view().entries(), call.tool_name@)
            && visibility_for(definition, self.registry_view().entries()[index_of(self.registry_view().entries(), call.tool_name@)])
            == ToolVisibility::Hidden
    }

    /// Runs calls one after another, in order; the first error ends the batch.
    pub fn execute_batch(&self, definition: &AgentDefinition, calls: Vec<ToolCall>) -> (r: AgentCoreResult<Vec<ToolResult>>)
        ensures
            r matches Ok(v) ==> v@.len() == calls@.len()
                && forall|i: int| 0 <= i < v@.len() ==> (#[trigger] v@[i])@.call_id == calls@[i].call_id@ && v@[i]@.tool_name == calls@[i].tool_name@,
            calls@.len() == 0 ==> (r matches Ok(v) && v@.len() == 0),
            calls@.len() > 0 && self.call_unknown(calls@[0]) ==> r matches Err(AgentCoreError::NotFound(_)),
            calls@.len() > 0 && self.call_hidden(*definition, calls@[0]) ==> r matches Err(AgentCoreError::PermissionDenied(_)),
    {
        let ghost cs = calls@;
        let n = calls.len();
        let mut out: Vec<ToolResult> = Vec::new();
        let mut rest = calls;
        let mut i: usize = 0;
        while rest.len() > 0
            invariant
                i <= cs.len(),
                cs.len() == n,
                rest@ == cs.subrange(i as int, cs.len() as int),
                out@.len() == i,
                forall|k: int| 0 <= k < i ==> (#[trigger] out@[k])@.call_id == cs[k].call_id@ && out@[k]@.tool_name == cs[k].tool_name@,
                cs == calls@,
                i > 0 ==> !self.call_unknown(cs[0]) && !self.call_hidden(*definition, cs[0]),
            decreases rest@.len(),
        {
            let call = rest.remove(0);
            proof {
                assert(call == cs[i as int]);
                assert(rest@ =~= cs.subrange(i + 1, cs.len() as int));
            }
            match self.execute_one(definition, call) {
                Ok(res) => out.push(res),
                Err(e) => {
                    return Err(e);
                },
            }
            i += 1;
        }
        Ok(out)
    }

    /// Runs calls in order and gives their results as tool messages.
    pub fn execute_batch_messages(&self, definition: &AgentDefinition, calls: Vec<ToolCall>) -> (r: AgentCoreResult<Vec<RunMessage>>)
        ensures
            r matches Ok(v) ==> v@.len() == calls@.len() && forall|i: int| 0 <= i < v@.len()
                ==> answers_call(#[trigger] v@[i], calls@[i].call_id@, calls@[i].tool_name@),
            calls@.len() == 0 ==> (r matches Ok(v) && v@.len() == 0),
            calls@.len() > 0 && self.call_unknown(calls@[0]) ==> r matches Err(AgentCoreError::NotFound(_)),
            calls@.len() > 0 && self.call_hidden(*definition, calls@[0]) ==> r matches Err(AgentCoreError::PermissionDenied(_)),
    {
        let ghost cs = calls@;
        let results = match self.execute_batch(definition, calls) {
            Ok(v) => v,
            Err(e) => {
                return Err(e);
            },
        };
        let mut out: Vec<RunMessage> = Vec::new();
        let mut i: usize = 0;
        while i < results.len()
            invariant
                i <= results@.len(),
                out@.len() == i,
                results@.len() == cs.len(),
                forall|k: int| 0 <= k < results@.len() ==> (#[trigger] results@[k])@.call_id == cs[k].call_id@ && results@[k]@.tool_name == cs[k].tool_name@,
                forall|k: int| 0 <= k < i ==> answers_call(#[trigger] out@[k], cs[k].call_id@, cs[k].tool_name@),
            decreases results.len() - i,
        {
            match results[i].into_run_message() {
                Ok(m) => out.push(m),
                Err(e) => {
                    return Err(e);
                },
            }
            i += 1;
        }
        Ok(out)
    }
}

/// A request handed to a tool service.
pub struct ToolExecutionRequest<'a> {
    pub definition: &'a AgentDefinition,
    pub call: ToolCall,
}

/// A service that answers tool calls with tool messages.
pub trait ToolService {
    fn call(&self, request: ToolExecutionRequest<'_>) -> AgentCoreResult<RunMessage>;
}

/// A layer that wraps a tool service into another.
pub trait ToolLayer<S> {
    type Service;

    fn layer(&self, inner: S) -> Self::Service;
}

impl ToolService for ToolExecutor {
    fn call(&self, request: ToolExecutionRequest<'_>) -> AgentCoreResult<RunMessage> {
        let ToolExecutionRequest { definition, call } = request;
        self.execute_one_message(definition, call)
    }
}

/// An adapter's name and where its tools come from.
#[derive(Debug, Clone, PartialEq, Eq)]
pub struct ToolAdapterMetadata {
    pub name: String,
    pub source: String,
}

/// A source of tools. What it loads is the implementer's.
pub trait ToolAdapter {
    fn adapter_name(&self) -> &str;

    fn load_tools(&self) -> AgentCoreResult<Vec<Box<dyn Tool>>>;
}

struct AdapterSlot {
    name: String,
    adapter: Box<dyn ToolAdapter>,
}

fn adapter_slot<A: ToolAdapter + 'static>(name: String, adapter: A) -> (r: AdapterSlot)
    ensures
        r.name == name,
{
    AdapterSlot { name, adapter: Box::new(adapter) }
}

spec fn adapter_names_of(v: Seq<AdapterSlot>) -> Seq<Seq<char>> {
    Seq::new(v.len(), |i: int| v[i].name@)
}

/// The registered adapters, by name.
pub struct ToolAdapterRegistry {
    adapters: Vec<AdapterSlot>,
}

impl ToolAdapterRegistry {
    pub closed spec fn names_view(&self) -> Seq<Seq<char>> {
        adapter_names_of(self.adapters@)
    }

    pub open spec fn wf(&self) -> bool {
        crate::assoc::set_sorted(self.names_view())
    }

    pub fn new() -> (r: ToolAdapterRegistry)
        ensures
            r.wf(),
            r.names_view() == Seq::<Seq<char>>::empty(),
    {
        let r = ToolAdapterRegistry { adapters: Vec::new() };
        assert(adapter_names_of(r.adapters@) =~= Seq::empty());
        r
    }

    /// Registers an adapter under its name: refused when the name is blank or taken.
    pub fn register<A: ToolAdapter + 'static>(&mut self, adapter: A) -> (r: AgentCoreResult<()>)
        requires
            old(self).wf(),
        ensures
            final(self).wf(),
            r matches Err(e) ==> e is InvalidConfig && final(self).names_view() == old(self).names_view(),
            r is Ok ==> exists|p: int, n: Seq<char>| #![trigger old(self).names_view().insert(p, n)]
                0 <= p <= old(self).names_view().len()
                && final(self).names_view() == old(self).names_view().insert(p, n)
                && !is_blank(n) && !old(self).names_view().contains(n),
    {
        let name = owned(adapter.adapter_name());
        if str_is_blank(name.as_str()) {
            return Err(AgentCoreError::InvalidConfig(owned("tool adapter name must not be empty")));
        }
        let ghost s0 = self.names_view();
        let mut p: usize = 0;
        while p < self.adapters.len() && str_lt(self.adapters[p].name.as_str(), name.as_str())
            invariant
                p <= self.adapters@.len(),
                s0 == adapter_names_of(self.adapters@),
                crate::assoc::set_sorted(s0),
                forall|k: int| 0 <= k < p ==> seq_lt(#[trigger] s0[k], name@),
            decreases self.adapters.len() - p,
        {
            p += 1;
        }
        if p < self.adapters.len() && str_eq(self.adapters[p].name.as_str(), name.as_str()) {
            let mut t = owned("tool adapter `");
            t.append(name.as_str());
            t.append("` already registered");
            return Err(AgentCoreError::InvalidConfig(t));
        }
        proof {
            assert forall|k: int| p <= k < s0.len() implies seq_lt(name@, #[trigger] s0[k]) by {
                lemma_seq_lt_total(name@, s0[p as int]);
                if k > p {
                    lemma_seq_lt_trans(name@, s0[p as int], s0[k]);
                }
            }
            assert(!s0.contains(name@)) by {
                if s0.contains(name@) {
                    let k = choose|k: int| 0 <= k < s0.len() && s0[k] == name@;
                    lemma_seq_lt_irrefl(name@);
                }
            }
        }
        let ghost n = name@;
        let slot = adapter_slot(name, adapter);
        self.adapters.insert(p, slot);
        proof {
            let s1 = adapter_names_of(self.adapters@);
            assert(s1 =~= s0.insert(p as int, n));
            assert forall|i: int, j: int| 0 <= i < j < s1.len() implies seq_lt(#[trigger] s1[i], #[trigger] s1[j]) by {
                if i < p && j > p {
                    lemma_seq_lt_trans(s0[i], n, s0[j - 1]);
                }
            }
        }
        Ok(())
    }

    /// The tools of every adapter, in name order; the first adapter that fails ends the load.
    /// With no adapter the load gives no tool.
    pub fn load_all(&self) -> (r: AgentCoreResult<Vec<Box<dyn Tool>>>)
        ensures
            self.names_view().len() == 0 ==> (r matches Ok(v) && v@.len() == 0),
    {
        let mut tools: Vec<Box<dyn Tool>> = Vec::new();
        let mut i: usize = 0;
        while i < self.adapters.len()
            invariant
                i <= self.adapters@.len(),
                self.adapters@.len() == 0 ==> tools@.len() == 0,
            decreases self.adapters.len() - i,
        {
            match self.adapters[i].adapter.load_tools() {
                Ok(mut loaded) => tools.append(&mut loaded),
                Err(e) => {
                    return Err(e);
                },
            }
            i += 1;
        }
        Ok(tools)
    }
}

} // verus!
