//! Task packages arranged in a dependency graph: each task sees the artifacts of the tasks
//! it depends on, in dependency order, followed by its own package.

use vstd::prelude::*;
use crate::assoc::{set_sorted, strings_view};
use crate::boundary::{mark_stability, stability_name, ContextStability, STABILITY_KEY};
use crate::error::{AgentCoreError, AgentCoreResult};
use crate::json::{fields_insert, object_view, Json, JsonV};
use crate::message::{blocks_view, BlockV, ContentBlock, MessageRole, MessageStatus, MessageV, RunMessage};
use crate::text::{
    is_blank, join_seq, join_strings, lemma_seq_lt_irrefl, lemma_seq_lt_total, lemma_seq_lt_trans, owned,
    seq_lt, str_eq, str_is_blank, str_lt, views_of,
};

verus! {

/// What a task is for, what it starts from, what it leaves behind and what it expects to hold.
#[derive(Clone, Debug, PartialEq, Eq)]
pub struct TaskContextPackage {
    pub task_id: String,
    pub goal: String,
    pub inputs: Vec<String>,
    pub artifacts: Vec<String>,
    pub required_state: Vec<String>,
}

impl TaskContextPackage {
    /// A package with no inputs, artifacts or required state.
    pub fn new(task_id: &str, goal: &str) -> (r: TaskContextPackage)
        ensures
            r.task_id@ == task_id@,
            r.goal@ == goal@,
            r.inputs@.len() == 0,
            r.artifacts@.len() == 0,
            r.required_state@.len() == 0,
    {
        TaskContextPackage {
            task_id: owned(task_id),
            goal: owned(goal),
            inputs: Vec::new(),
            artifacts: Vec::new(),
            required_state: Vec::new(),
        }
    }

    pub fn with_inputs(self, inputs: Vec<String>) -> (r: TaskContextPackage)
        ensures
            r == (TaskContextPackage { inputs, ..self }),
    {
        TaskContextPackage { inputs, ..self }
    }

    pub fn with_artifacts(self, artifacts: Vec<String>) -> (r: TaskContextPackage)
        ensures
            r == (TaskContextPackage { artifacts, ..self }),
    {
        TaskContextPackage { artifacts, ..self }
    }

    pub fn with_required_state(self, required_state: Vec<String>) -> (r: TaskContextPackage)
        ensures
            r == (TaskContextPackage { required_state, ..self }),
    {
        TaskContextPackage { required_state, ..self }
    }
}

/// A package and the ids of the tasks it depends on.
#[derive(Clone, Debug, PartialEq, Eq)]
pub struct TaskNode {
    pub package: TaskContextPackage,
    pub depends_on: Vec<String>,
}

impl TaskNode {
    pub fn new(package: TaskContextPackage) -> (r: TaskNode)
        ensures
            r.package == package,
            r.depends_on@.len() == 0,
    {
        TaskNode { package, depends_on: Vec::new() }
    }

    pub fn depends_on(self, task_ids: Vec<String>) -> (r: TaskNode)
        ensures
            r == (TaskNode { depends_on: task_ids, ..self }),
    {
        TaskNode { depends_on: task_ids, ..self }
    }
}

/// The id of a task node.
pub open spec fn node_id(n: TaskNode) -> Seq<char> {
    n.package.task_id@
}

/// The ids of the dependencies of a task node.
pub open spec fn node_deps(n: TaskNode) -> Seq<Seq<char>> {
    strings_view(n.depends_on@)
}

/// The ids of a list of task nodes, in order.
pub open spec fn task_ids(g: Seq<TaskNode>) -> Seq<Seq<char>> {
    Seq::new(g.len(), |i: int| node_id(g[i]))
}

/// Whether a task with this id is in the list.
pub open spec fn has_task(g: Seq<TaskNode>, id: Seq<char>) -> bool {
    task_ids(g).contains(id)
}

/// The task with this id (meaningful when [`has_task`] holds; ids are unique).
pub open spec fn task_at(g: Seq<TaskNode>, id: Seq<char>) -> TaskNode {
    g[task_index(g, id)]
}

/// Where the task with this id stands (meaningful when [`has_task`] holds).
pub open spec fn task_index(g: Seq<TaskNode>, id: Seq<char>) -> int {
    choose|i: int| 0 <= i < g.len() && task_ids(g)[i] == id
}

/// A task in a list whose ids are unique is the one that [`task_at`] names.
pub proof fn lemma_task_at(g: Seq<TaskNode>, k: int)
    requires
        set_sorted(task_ids(g)),
        0 <= k < g.len(),
    ensures
        has_task(g, node_id(g[k])),
        task_at(g, node_id(g[k])) == g[k],
{
    let id = node_id(g[k]);
    assert(task_ids(g)[k] == id);
    let j = task_index(g, id);
    if j != k {
        if j < k {
            assert(seq_lt(task_ids(g)[j], task_ids(g)[k]));
        } else {
            assert(seq_lt(task_ids(g)[k], task_ids(g)[j]));
        }
        lemma_seq_lt_irrefl(id);
    }
}

/// The edges `(dependency, dependent)` of a list of tasks: for each task in order, one edge
/// per dependency, in the order the task lists them.
pub open spec fn edges_of(g: Seq<TaskNode>) -> Seq<(Seq<char>, Seq<char>)>
    decreases g.len(),
{
    if g.len() == 0 {
        Seq::empty()
    } else {
        edges_of(g.drop_last()) + Seq::new(
            g.last().depends_on@.len(),
            |k: int| (g.last().depends_on@[k]@, node_id(g.last())),
        )
    }
}

/// Tasks by id. Ids are unique and the tasks are kept in id order.
#[derive(Debug)]
pub struct TaskDependencyGraph {
    tasks: Vec<TaskNode>,
}

impl TaskDependencyGraph {
    /// The tasks, in id order.
    pub closed spec fn tasks_view(&self) -> Seq<TaskNode> {
        self.tasks@
    }

    #[verifier::type_invariant]
    spec fn inv(&self) -> bool {
        set_sorted(task_ids(self.tasks@))
    }

    /// The tasks' ids are strictly increasing, so each id names one task.
    pub fn check_wf(&self)
        ensures
            set_sorted(task_ids(self.tasks_view())),
    {
        proof {
            use_type_invariant(self);
        }
    }

    pub fn new() -> (r: TaskDependencyGraph)
        ensures
            r.tasks_view().len() == 0,
    {
        let r = TaskDependencyGraph { tasks: Vec::new() };
        assert(task_ids(r.tasks@) =~= Seq::empty());
        r
    }

    /// Adds a task under its id. A blank id is refused and nothing changes. An id already
    /// present is refused too, but (as with a map insert that reports the old entry) the new
    /// task takes the old one's place.
    pub fn add_task(&mut self, task: TaskNode) -> (r: AgentCoreResult<()>)
        ensures
            is_blank(node_id(task)) ==> (r matches Err(AgentCoreError::InvalidInput(t))
                && t@ == "task id must not be empty"@ && final(self).tasks_view() == old(self).tasks_view()),
            !is_blank(node_id(task)) && has_task(old(self).tasks_view(), node_id(task)) ==> (r matches Err(AgentCoreError::InvalidInput(t))
                && t@ == "duplicate task id: "@ + node_id(task)
                && exists|k: int| 0 <= k < old(self).tasks_view().len()
                    && node_id(old(self).tasks_view()[k]) == node_id(task)
                    && final(self).tasks_view() == old(self).tasks_view().update(k, task)),
            !is_blank(node_id(task)) && !has_task(old(self).tasks_view(), node_id(task)) ==> r is Ok
                && exists|p: int| 0 <= p <= old(self).tasks_view().len()
                    && final(self).tasks_view() == old(self).tasks_view().insert(p, task),
    {
        proof {
            use_type_invariant(&*self);
        }
        if str_is_blank(task.package.task_id.as_str()) {
            return Err(AgentCoreError::InvalidInput(owned("task id must not be empty")));
        }
        let ghost g0 = self.tasks@;
        let ghost s0 = task_ids(g0);
        let ghost id = node_id(task);
        let mut p: usize = 0;
        while p < self.tasks.len() && str_lt(self.tasks[p].package.task_id.as_str(), task.package.task_id.as_str())
            invariant
                p <= self.tasks@.len(),
                g0 == self.tasks@,
                s0 == task_ids(g0),
                id == node_id(task),
                forall|k: int| 0 <= k < p ==> seq_lt(#[trigger] s0[k], id),
            decreases self.tasks.len() - p,
        {
            p += 1;
        }
        let mut tasks: Vec<TaskNode> = Vec::new();
        std::mem::swap(&mut tasks, &mut self.tasks);
        if p < tasks.len() && str_eq(tasks[p].package.task_id.as_str(), task.package.task_id.as_str()) {
            assert(s0[p as int] == id);
            let mut t = owned("duplicate task id: ");
            t.append(task.package.task_id.as_str());
            let ghost tk = task;
            tasks.set(p, task);
            proof {
                assert(task_ids(tasks@) =~= s0);
                assert(node_id(g0[p as int]) == id);
            }
            self.tasks = tasks;
            assert(self.tasks_view() == g0.update(p as int, tk));
            return Err(AgentCoreError::InvalidInput(t));
        }
        proof {
            crate::llm_registry::lemma_sorted_insert(s0, id, p as int);
            assert(!task_ids(g0).contains(id));
        }
        let ghost tk = task;
        tasks.insert(p, task);
        proof {
            assert(task_ids(tasks@) =~= s0.insert(p as int, id));
        }
        self.tasks = tasks;
        assert(self.tasks_view() == g0.insert(p as int, tk));
        Ok(())
    }

    /// The edges `(dependency, dependent)`, tasks in id order.
    pub fn dependency_edges(&self) -> (r: Vec<(String, String)>)
        ensures
            Seq::new(r@.len(), |i: int| (r@[i].0@, r@[i].1@)) == edges_of(self.tasks_view()),
    {
        let mut out: Vec<(String, String)> = Vec::new();
        let mut i: usize = 0;
        while i < self.tasks.len()
            invariant
                i <= self.tasks@.len(),
                Seq::new(out@.len(), |j: int| (out@[j].0@, out@[j].1@)) == edges_of(self.tasks@.subrange(0, i as int)),
            decreases self.tasks.len() - i,
        {
            let task = &self.tasks[i];
            let ghost before = out@;
            let mut k: usize = 0;
            while k < task.depends_on.len()
                invariant
                    k <= task.depends_on@.len(),
                    out@.len() == before.len() + k,
                    forall|j: int| 0 <= j < before.len() ==> out@[j] == before[j],
                    forall|j: int| 0 <= j < k ==> (#[trigger] out@[before.len() + j]).0@ == task.depends_on@[j]@
                        && out@[before.len() + j].1@ == node_id(*task),
                decreases task.depends_on.len() - k,
            {
                out.push((task.depends_on[k].clone(), task.package.task_id.clone()));
                proof {
                    assert(out@[before.len() + k as int] == out@.last());
                }
                k += 1;
            }
            proof {
                let g = self.tasks@.subrange(0, i + 1);
                assert(g.drop_last() =~= self.tasks@.subrange(0, i as int));
                assert(g.last() == *task);
                let lhs = Seq::new(out@.len(), |j: int| (out@[j].0@, out@[j].1@));
                let prev = Seq::new(before.len(), |j: int| (before[j].0@, before[j].1@));
                let add = Seq::new(task.depends_on@.len(), |j: int| (task.depends_on@[j]@, node_id(*task)));
                assert forall|j: int| 0 <= j < lhs.len() implies lhs[j] == (prev + add)[j] by {
                    if j >= before.len() {
                        assert(out@[before.len() + (j - before.len())] == out@[j]);
                    }
                }
                assert(lhs =~= prev + add);
            }
            i += 1;
        }
        assert(self.tasks@.subrange(0, self.tasks@.len() as int) =~= self.tasks@);
        out
    }

    /// The task with an id, `NotFound` when there is none.
    fn task(&self, task_id: &str) -> (r: AgentCoreResult<&TaskNode>)
        ensures
            has_task(self.tasks_view(), task_id@) ==> (r matches Ok(t) && *t == task_at(self.tasks_view(), task_id@)),
            !has_task(self.tasks_view(), task_id@) ==> (r matches Err(AgentCoreError::NotFound(m))
                && m@ == "task not found: "@ + task_id@),
    {
        proof {
            use_type_invariant(self);
        }
        let mut i: usize = 0;
        while i < self.tasks.len()
            invariant
                i <= self.tasks@.len(),
                set_sorted(task_ids(self.tasks@)),
                forall|k: int| 0 <= k < i ==> task_ids(self.tasks@)[k] != task_id@,
            decreases self.tasks.len() - i,
        {
            if str_eq(self.tasks[i].package.task_id.as_str(), task_id) {
                proof {
                    lemma_task_at(self.tasks@, i as int);
                }
                return Ok(&self.tasks[i]);
            }
            i += 1;
        }
        let mut m = owned("task not found: ");
        m.append(task_id);
        Err(AgentCoreError::NotFound(m))
    }
}


/// How a depth-first walk over dependencies ends: the tasks finished and the dependencies in
/// the order they were first reached (each after its own dependencies), or the task at which a
/// cycle closed, or a task that is not in the graph.
pub enum WalkV {
    Done(Seq<Seq<char>>, Seq<Seq<char>>),
    Cycle(Seq<char>),
    Missing(Seq<char>),
}

/// How many of the ids are not on the current path.
pub open spec fn open_count(ids: Seq<Seq<char>>, path: Seq<Seq<char>>) -> nat
    decreases ids.len(),
{
    if ids.len() == 0 {
        0
    } else {
        (if path.contains(ids[0]) { 0nat } else { 1nat }) + open_count(ids.drop_first(), path)
    }
}

/// Stepping onto a task of the graph that is not yet on the path leaves fewer tasks open.
pub proof fn lemma_open_count_push(ids: Seq<Seq<char>>, path: Seq<Seq<char>>, t: Seq<char>)
    ensures
        open_count(ids, path.push(t)) <= open_count(ids, path),
        ids.contains(t) && !path.contains(t) ==> open_count(ids, path.push(t)) < open_count(ids, path),
    decreases ids.len(),
{
    if ids.len() > 0 {
        lemma_open_count_push(ids.drop_first(), path, t);
        assert(path.push(t).contains(ids[0]) <==> (path.contains(ids[0]) || ids[0] == t)) by {
            if path.push(t).contains(ids[0]) {
                let k = choose|k: int| 0 <= k < path.push(t).len() && path.push(t)[k] == ids[0];
                if k < path.len() {
                    assert(path[k] == ids[0]);
                }
            }
            if path.contains(ids[0]) {
                let k = choose|k: int| 0 <= k < path.len() && path[k] == ids[0];
                assert(path.push(t)[k] == ids[0]);
            }
            if ids[0] == t {
                assert(path.push(t)[path.len() as int] == t);
            }
        }
        if ids.contains(t) && ids[0] != t {
            let k = choose|k: int| 0 <= k < ids.len() && ids[k] == t;
            assert(ids.drop_first()[k - 1] == t);
        }
    }
}

/// The walk from `t`: a task already finished is skipped, a task on the current path closes a
/// cycle, a task not in the graph is missing; otherwise its dependencies are walked in the
/// order it lists them, and it is finished.
pub open spec fn walk(
    g: Seq<TaskNode>,
    t: Seq<char>,
    path: Seq<Seq<char>>,
    visited: Seq<Seq<char>>,
    ordered: Seq<Seq<char>>,
) -> WalkV
    decreases open_count(task_ids(g), path), 0int, 0int,
{
    if visited.contains(t) {
        WalkV::Done(visited, ordered)
    } else if path.contains(t) {
        WalkV::Cycle(t)
    } else if !has_task(g, t) {
        WalkV::Missing(t)
    } else {
        proof {
            lemma_open_count_push(task_ids(g), path, t);
        }
        match walk_deps(g, node_deps(task_at(g, t)), 0, path.push(t), visited, ordered) {
            WalkV::Done(v, o) => WalkV::Done(v.push(t), o),
            e => e,
        }
    }
}

/// The walk over `deps` from position `i`: each dependency is walked, then listed in
/// `ordered` unless it is there already.
pub open spec fn walk_deps(
    g: Seq<TaskNode>,
    deps: Seq<Seq<char>>,
    i: int,
    path: Seq<Seq<char>>,
    visited: Seq<Seq<char>>,
    ordered: Seq<Seq<char>>,
) -> WalkV
    decreases open_count(task_ids(g), path), 1int, deps.len() - i,
{
    if i < 0 || i >= deps.len() {
        WalkV::Done(visited, ordered)
    } else {
        match walk(g, deps[i], path, visited, ordered) {
            WalkV::Done(v, o) => walk_deps(
                g,
                deps,
                i + 1,
                path,
                v,
                if o.contains(deps[i]) { o } else { o.push(deps[i]) },
            ),
            e => e,
        }
    }
}

/// A chain of tasks in which each one lists the next as a dependency.
pub open spec fn depends_chain(g: Seq<TaskNode>, p: Seq<Seq<char>>) -> bool {
    forall|k: int| 0 <= k < p.len() - 1 ==> has_task(g, #[trigger] p[k]) && node_deps(task_at(g, p[k])).contains(p[k + 1])
}

/// `b` is a dependency of `a`, directly or through other tasks.
pub open spec fn reaches(g: Seq<TaskNode>, a: Seq<char>, b: Seq<char>) -> bool {
    exists|p: Seq<Seq<char>>| #[trigger] depends_chain(g, p) && p.len() >= 2 && p[0] == a && p.last() == b
}

/// Each listed task comes after every one of its dependencies.
pub open spec fn dependencies_first(g: Seq<TaskNode>, o: Seq<Seq<char>>) -> bool {
    forall|i: int, d: Seq<char>| 0 <= i < o.len() && #[trigger] node_deps(task_at(g, o[i])).contains(d)
        ==> o.subrange(0, i).contains(d)
}

/// What holds of the walk's state between steps.
pub open spec fn walk_inv(g: Seq<TaskNode>, visited: Seq<Seq<char>>, ordered: Seq<Seq<char>>) -> bool {
    &&& ordered.no_duplicates()
    &&& forall|i: int| 0 <= i < ordered.len() ==> visited.contains(#[trigger] ordered[i])
    &&& forall|x: Seq<char>| #[trigger] visited.contains(x) ==> has_task(g, x)
    &&& forall|x: Seq<char>, d: Seq<char>| visited.contains(x) && #[trigger] node_deps(task_at(g, x)).contains(d)
        ==> ordered.contains(d)
    &&& dependencies_first(g, ordered)
}

proof fn lemma_reaches_step(g: Seq<TaskNode>, u: Seq<char>, d: Seq<char>)
    requires
        has_task(g, u),
        node_deps(task_at(g, u)).contains(d),
    ensures
        reaches(g, u, d),
{
    let p = seq![u, d];
    assert(depends_chain(g, p)) by {
        assert forall|k: int| 0 <= k < p.len() - 1 implies has_task(g, #[trigger] p[k]) && node_deps(task_at(g, p[k])).contains(p[k + 1]) by {
            assert(k == 0);
        }
    }
    assert(p.last() == d);
}

proof fn lemma_reaches_prepend(g: Seq<TaskNode>, u: Seq<char>, d: Seq<char>, x: Seq<char>)
    requires
        has_task(g, u),
        node_deps(task_at(g, u)).contains(d),
        reaches(g, d, x),
    ensures
        reaches(g, u, x),
{
    let p = choose|p: Seq<Seq<char>>| #[trigger] depends_chain(g, p) && p.len() >= 2 && p[0] == d && p.last() == x;
    let q = seq![u] + p;
    assert(depends_chain(g, q)) by {
        assert forall|k: int| 0 <= k < q.len() - 1 implies has_task(g, #[trigger] q[k]) && node_deps(task_at(g, q[k])).contains(q[k + 1]) by {
            if k == 0 {
                assert(q[1] == d);
            } else {
                assert(q[k] == p[k - 1]);
                assert(q[k + 1] == p[k]);
                assert(has_task(g, p[k - 1]));
            }
        }
    }
    assert(q.last() == x);
    assert(q[0] == u);
}

proof fn lemma_contains_push(s: Seq<Seq<char>>, a: Seq<char>, x: Seq<char>)
    ensures
        s.push(a).contains(x) <==> (s.contains(x) || x == a),
{
    if s.push(a).contains(x) {
        let k = choose|k: int| 0 <= k < s.push(a).len() && s.push(a)[k] == x;
        if k < s.len() {
            assert(s[k] == x);
        }
    }
    if s.contains(x) {
        let k = choose|k: int| 0 <= k < s.len() && s[k] == x;
        assert(s.push(a)[k] == x);
    }
    if x == a {
        assert(s.push(a)[s.len() as int] == a);
    }
}

proof fn lemma_contains_prefix(s: Seq<Seq<char>>, n: int, x: Seq<char>)
    requires
        0 <= n <= s.len(),
        s.subrange(0, n).contains(x),
    ensures
        s.contains(x),
{
    let k = choose|k: int| 0 <= k < n && s.subrange(0, n)[k] == x;
    assert(s[k] == x);
}

/// The walk from `t` keeps [`walk_inv`]; when it ends well, `t` is finished, `ordered` has
/// only grown at its end, and what it added are dependencies of `t`.
proof fn lemma_walk(
    g: Seq<TaskNode>,
    t: Seq<char>,
    path: Seq<Seq<char>>,
    visited: Seq<Seq<char>>,
    ordered: Seq<Seq<char>>,
)
    requires
        set_sorted(task_ids(g)),
        walk_inv(g, visited, ordered),
    ensures
        walk(g, t, path, visited, ordered) matches WalkV::Done(v2, o2) ==> {
            &&& walk_inv(g, v2, o2)
            &&& v2.contains(t)
            &&& forall|x: Seq<char>| visited.contains(x) ==> #[trigger] v2.contains(x)
            &&& ordered.len() <= o2.len()
            &&& o2.subrange(0, ordered.len() as int) == ordered
            &&& forall|j: int| ordered.len() <= j < o2.len() ==> reaches(g, t, #[trigger] o2[j])
        },
    decreases open_count(task_ids(g), path), 0int, 0int,
{
    if visited.contains(t) {
        assert(ordered.subrange(0, ordered.len() as int) =~= ordered);
    } else if path.contains(t) {
    } else if !has_task(g, t) {
    } else {
        lemma_open_count_push(task_ids(g), path, t);
        let deps = node_deps(task_at(g, t));
        lemma_walk_deps(g, t, deps, 0, path.push(t), visited, ordered);
        match walk_deps(g, deps, 0, path.push(t), visited, ordered) {
            WalkV::Done(v, o) => {
                let v2 = v.push(t);
                assert forall|x: Seq<char>| #[trigger] v2.contains(x) implies has_task(g, x) by {
                    lemma_contains_push(v, t, x);
                }
                assert forall|x: Seq<char>, d: Seq<char>| v2.contains(x) && #[trigger] node_deps(task_at(g, x)).contains(d)
                    implies o.contains(d) by {
                    lemma_contains_push(v, t, x);
                    if x == t {
                        let k = choose|k: int| 0 <= k < deps.len() && deps[k] == d;
                        assert(o.contains(deps[k]));
                    }
                }
                assert forall|i: int| 0 <= i < o.len() implies v2.contains(#[trigger] o[i]) by {
                    lemma_contains_push(v, t, o[i]);
                }
                assert forall|x: Seq<char>| visited.contains(x) implies #[trigger] v2.contains(x) by {
                    lemma_contains_push(v, t, x);
                }
                lemma_contains_push(v, t, t);
            },
            _ => {},
        }
    }
}

/// The walk over `deps` (the dependencies of `u`) from position `i` keeps [`walk_inv`]; when it
/// ends well, every dependency from `i` on is listed, `ordered` has only grown at its end, and
/// what it added are dependencies of `u`.
proof fn lemma_walk_deps(
    g: Seq<TaskNode>,
    u: Seq<char>,
    deps: Seq<Seq<char>>,
    i: int,
    path: Seq<Seq<char>>,
    visited: Seq<Seq<char>>,
    ordered: Seq<Seq<char>>,
)
    requires
        set_sorted(task_ids(g)),
        walk_inv(g, visited, ordered),
        has_task(g, u),
        deps == node_deps(task_at(g, u)),
        0 <= i,
    ensures
        walk_deps(g, deps, i, path, visited, ordered) matches WalkV::Done(v2, o2) ==> {
            &&& walk_inv(g, v2, o2)
            &&& forall|k: int| i <= k < deps.len() ==> o2.contains(#[trigger] deps[k])
            &&& forall|x: Seq<char>| visited.contains(x) ==> #[trigger] v2.contains(x)
            &&& ordered.len() <= o2.len()
            &&& o2.subrange(0, ordered.len() as int) == ordered
            &&& forall|j: int| ordered.len() <= j < o2.len() ==> reaches(g, u, #[trigger] o2[j])
        },
    decreases open_count(task_ids(g), path), 1int, deps.len() - i,
{
    if i >= deps.len() {
        assert(ordered.subrange(0, ordered.len() as int) =~= ordered);
    } else {
        let d = deps[i];
        lemma_walk(g, d, path, visited, ordered);
        match walk(g, d, path, visited, ordered) {
            WalkV::Done(v, o) => {
                let o3 = if o.contains(d) { o } else { o.push(d) };
                assert(deps.contains(d)) by {
                    assert(deps[i] == d);
                }
                // the state after listing `d` keeps the invariant
                assert(walk_inv(g, v, o3)) by {
                    if !o.contains(d) {
                        assert(o3.no_duplicates()) by {
                            assert forall|a: int, b: int| 0 <= a < o3.len() && 0 <= b < o3.len() && a != b implies o3[a] != o3[b] by {
                                if a == o.len() {
                                    assert(o3[b] == o[b]);
                                } else if b == o.len() {
                                    assert(o3[a] == o[a]);
                                }
                            }
                        }
                        assert forall|k: int| 0 <= k < o3.len() implies v.contains(#[trigger] o3[k]) by {
                            if k < o.len() {
                                assert(o3[k] == o[k]);
                            }
                        }
                        assert forall|x: Seq<char>, e: Seq<char>| v.contains(x) && #[trigger] node_deps(task_at(g, x)).contains(e)
                            implies o3.contains(e) by {
                            lemma_contains_push(o, d, e);
                        }
                        assert forall|k: int, e: Seq<char>| 0 <= k < o3.len() && #[trigger] node_deps(task_at(g, o3[k])).contains(e)
                            implies o3.subrange(0, k).contains(e) by {
                            if k < o.len() {
                                assert(o3[k] == o[k]);
                                assert(o3.subrange(0, k) =~= o.subrange(0, k));
                            } else {
                                assert(o3[k] == d);
                                assert(o3.subrange(0, k) =~= o);
                            }
                        }
                    }
                }
                lemma_walk_deps(g, u, deps, i + 1, path, v, o3);
                match walk_deps(g, deps, i + 1, path, v, o3) {
                    WalkV::Done(v2, o2) => {
                        assert(o3.contains(d)) by {
                            lemma_contains_push(o, d, d);
                        }
                        assert(o3.len() <= o2.len());
                        assert(o2.subrange(0, o3.len() as int) == o3);
                        assert(o2.contains(d)) by {
                            let k = choose|k: int| 0 <= k < o3.len() && o3[k] == d;
                            assert(o2.subrange(0, o3.len() as int)[k] == d);
                        }
                        assert forall|k: int| i <= k < deps.len() implies o2.contains(#[trigger] deps[k]) by {
                            if k == i {
                            }
                        }
                        assert(o2.subrange(0, ordered.len() as int) =~= ordered) by {
                            assert forall|j: int| 0 <= j < ordered.len() implies o2.subrange(0, ordered.len() as int)[j] == ordered[j] by {
                                assert(o2[j] == o3[j]) by {
                                    assert(o2.subrange(0, o3.len() as int)[j] == o3[j]);
                                }
                                assert(o3[j] == o[j]);
                                assert(o.subrange(0, ordered.len() as int)[j] == ordered[j]);
                            }
                        }
                        assert forall|j: int| ordered.len() <= j < o2.len() implies reaches(g, u, #[trigger] o2[j]) by {
                            if j < o.len() {
                                assert(o2[j] == o3[j]) by {
                                    assert(o2.subrange(0, o3.len() as int)[j] == o3[j]);
                                }
                                assert(o3[j] == o[j]);
                                assert(reaches(g, d, o[j]));
                                lemma_reaches_prepend(g, u, d, o[j]);
                            } else if j < o3.len() {
                                assert(o2[j] == o3[j]) by {
                                    assert(o2.subrange(0, o3.len() as int)[j] == o3[j]);
                                }
                                assert(o3[j] == d);
                                lemma_reaches_step(g, u, d);
                            }
                        }
                    },
                    _ => {},
                }
            },
            _ => {},
        }
    }
}

/// Whatever a finished task depends on, directly or through others, is listed.
proof fn lemma_walk_closed(g: Seq<TaskNode>, v: Seq<Seq<char>>, o: Seq<Seq<char>>, p: Seq<Seq<char>>)
    requires
        walk_inv(g, v, o),
        depends_chain(g, p),
        p.len() >= 2,
        v.contains(p[0]),
    ensures
        o.contains(p.last()),
    decreases p.len(),
{
    assert(has_task(g, p[0]) && node_deps(task_at(g, p[0])).contains(p[1]));
    assert(o.contains(p[1]));
    if p.len() > 2 {
        let q = p.drop_first();
        assert(depends_chain(g, q)) by {
            assert forall|k: int| 0 <= k < q.len() - 1 implies has_task(g, #[trigger] q[k]) && node_deps(task_at(g, q[k])).contains(q[k + 1]) by {
                assert(q[k] == p[k + 1]);
                assert(q[k + 1] == p[k + 2]);
            }
        }
        let k = choose|k: int| 0 <= k < o.len() && o[k] == p[1];
        assert(v.contains(o[k]));
        lemma_walk_closed(g, v, o, q);
    }
}

/// The order in which the dependencies of a task are laid out: when the walk from the task ends
/// well, the task is in the graph, each dependency is listed once, the listed tasks are exactly
/// those the task depends on (directly or through others), each is a task of the graph, and
/// each comes after its own dependencies.
pub proof fn lemma_dependency_order(g: Seq<TaskNode>, t: Seq<char>)
    requires
        set_sorted(task_ids(g)),
    ensures
        walk(g, t, Seq::empty(), Seq::empty(), Seq::empty()) matches WalkV::Done(_v, o) ==> {
            &&& has_task(g, t)
            &&& o.no_duplicates()
            &&& forall|i: int| 0 <= i < o.len() ==> has_task(g, #[trigger] o[i])
            &&& forall|x: Seq<char>| #[trigger] o.contains(x) <==> reaches(g, t, x)
            &&& dependencies_first(g, o)
        },
{
    let e: Seq<Seq<char>> = Seq::empty();
    assert(walk_inv(g, e, e)) by {
        assert(e.no_duplicates());
        assert(dependencies_first(g, e));
    }
    lemma_walk(g, t, e, e, e);
    match walk(g, t, e, e, e) {
        WalkV::Done(v, o) => {
            assert(o.subrange(0, 0) =~= e);
            assert(has_task(g, t));
            assert forall|i: int| 0 <= i < o.len() implies has_task(g, #[trigger] o[i]) by {
                assert(v.contains(o[i]));
            }
            assert forall|x: Seq<char>| #[trigger] o.contains(x) <==> reaches(g, t, x) by {
                if o.contains(x) {
                    let k = choose|k: int| 0 <= k < o.len() && o[k] == x;
                    assert(reaches(g, t, o[k]));
                }
                if reaches(g, t, x) {
                    let p = choose|p: Seq<Seq<char>>| #[trigger] depends_chain(g, p) && p.len() >= 2 && p[0] == t && p.last() == x;
                    lemma_walk_closed(g, v, o, p);
                }
            }
        },
        _ => {},
    }
}

/// A line listing items after a prefix, when there are any.
pub open spec fn list_line(prefix: Seq<char>, items: Seq<Seq<char>>) -> Seq<Seq<char>> {
    if items.len() == 0 {
        Seq::empty()
    } else {
        seq![prefix + join_seq(items, "; "@)]
    }
}

/// The text of a task package message: a heading line, the goal, and the inputs, artifacts
/// and required state that are not empty, one line each.
pub open spec fn package_text(
    label: Seq<char>,
    task_id: Seq<char>,
    goal: Seq<char>,
    inputs: Seq<Seq<char>>,
    artifacts: Seq<Seq<char>>,
    required_state: Seq<Seq<char>>,
) -> Seq<char> {
    join_seq(
        seq![label + ": "@ + task_id, "Goal: "@ + goal] + list_line("Inputs: "@, inputs) + list_line("Artifacts: "@, artifacts)
            + list_line("Required state: "@, required_state),
        "\n"@,
    )
}

/// The metadata of a package message: the task's id and the message's stability.
pub open spec fn package_metadata(task_id: Seq<char>, stability: ContextStability) -> Seq<(Seq<char>, JsonV)> {
    fields_insert(
        fields_insert(Seq::empty(), "task.id"@, JsonV::Str(task_id)),
        STABILITY_KEY@,
        JsonV::Str(stability_name(stability)),
    )
}

/// A finalized user message holding one text block, tagged with a task id and a stability.
pub open spec fn is_package_message(m: MessageV, text: Seq<char>, task_id: Seq<char>, stability: ContextStability) -> bool {
    &&& m.role == MessageRole::User
    &&& m.content == seq![BlockV::Text(text)]
    &&& m.status == MessageStatus::Finalized
    &&& m.source_node_id is None
    &&& m.provider_response_id is None
    &&& m.usage is None
    &&& m.metadata == package_metadata(task_id, stability)
}

fn list_line_into(lines: &mut Vec<String>, prefix: &str, items: &Vec<String>)
    ensures
        views_of(final(lines)@) == views_of(old(lines)@) + list_line(prefix@, views_of(items@)),
{
    let ghost before = views_of(lines@);
    if items.len() > 0 {
        let mut l = owned(prefix);
        let joined = join_strings(items, "; ");
        l.append(joined.as_str());
        lines.push(l);
        assert(views_of(lines@) =~= before + list_line(prefix@, views_of(items@)));
    } else {
        assert(views_of(items@) =~= Seq::empty());
        assert(views_of(lines@) =~= before + list_line(prefix@, views_of(items@)));
    }
}

/// The message for a package, tagged with its task id and a stability.
fn package_message(
    label: &str,
    task_id: &str,
    goal: &str,
    inputs: &Vec<String>,
    artifacts: &Vec<String>,
    required_state: &Vec<String>,
    stability: ContextStability,
) -> (r: RunMessage)
    ensures
        is_package_message(
            r.view(),
            package_text(label@, task_id@, goal@, views_of(inputs@), views_of(artifacts@), views_of(required_state@)),
            task_id@,
            stability,
        ),
        r.wf(),
{
    let mut lines: Vec<String> = Vec::new();
    let mut head = owned(label);
    head.append(": ");
    head.append(task_id);
    lines.push(head);
    let mut goal_line = owned("Goal: ");
    goal_line.append(goal);
    lines.push(goal_line);
    assert(views_of(lines@) =~= seq![label@ + ": "@ + task_id@, "Goal: "@ + goal@]);
    list_line_into(&mut lines, "Inputs: ", inputs);
    list_line_into(&mut lines, "Artifacts: ", artifacts);
    list_line_into(&mut lines, "Required state: ", required_state);
    let text = join_strings(&lines, "\n");
    let block = ContentBlock::text(text.as_str());
    let content = vec![block];
    let made = RunMessage::new(MessageRole::User, content);
    let m = made.unwrap();
    proof {
        assert(object_view(m.metadata@) =~= Seq::empty());
        assert(blocks_view(m.content@) =~= seq![BlockV::Text(text@)]);
    }
    let m = m.with_metadata("task.id", Json::str_of(task_id));
    mark_stability(m, stability)
}

/// The messages a task sees before its own package: one per listed dependency that left
/// artifacts, in order, each with that dependency's id, goal and artifacts.
pub open spec fn context_plan(g: Seq<TaskNode>, order: Seq<Seq<char>>) -> Seq<(Seq<char>, Seq<char>)>
    decreases order.len(),
{
    if order.len() == 0 {
        Seq::empty()
    } else {
        let rest = context_plan(g, order.drop_last());
        let n = task_at(g, order.last());
        if n.package.artifacts@.len() == 0 {
            rest
        } else {
            rest.push((
                package_text("Dependency result"@, node_id(n), n.package.goal@, Seq::empty(), views_of(n.package.artifacts@), Seq::empty()),
                node_id(n),
            ))
        }
    }
}

/// The messages of [`TaskDependencyGraph::context_for`] when the walk ends well: the
/// dependency messages of [`context_plan`], then the task's own package.
pub open spec fn context_messages(g: Seq<TaskNode>, task_id: Seq<char>, order: Seq<Seq<char>>, ms: Seq<MessageV>) -> bool {
    let plan = context_plan(g, order);
    let n = task_at(g, task_id);
    &&& ms.len() == plan.len() + 1
    &&& forall|i: int| 0 <= i < plan.len() ==> is_package_message(#[trigger] ms[i], plan[i].0, plan[i].1, ContextStability::DependencyResult)
    &&& is_package_message(
        ms[plan.len() as int],
        package_text("Task package"@, task_id, n.package.goal@, views_of(n.package.inputs@), Seq::empty(), views_of(n.package.required_state@)),
        task_id,
        ContextStability::TaskPackage,
    )
}

impl TaskDependencyGraph {
    fn visit_dependencies(
        &self,
        task_id: &str,
        path: &mut Vec<String>,
        visited: &mut Vec<String>,
        ordered: &mut Vec<String>,
    ) -> (r: AgentCoreResult<()>)
        ensures
            match walk(self.tasks_view(), task_id@, strings_view(old(path)@), strings_view(old(visited)@), strings_view(old(ordered)@)) {
                WalkV::Done(v, o) => r is Ok && strings_view(final(visited)@) == v && strings_view(final(ordered)@) == o
                    && strings_view(final(path)@) == strings_view(old(path)@),
                WalkV::Cycle(t) => r matches Err(AgentCoreError::InvalidConfig(m)) && m@ == "task dependency cycle includes: "@ + t,
                WalkV::Missing(t) => r matches Err(AgentCoreError::NotFound(m)) && m@ == "task not found: "@ + t,
            },
        decreases open_count(task_ids(self.tasks_view()), strings_view(old(path)@)),
    {
        proof {
            use_type_invariant(self);
        }
        let ghost g = self.tasks_view();
        let ghost p0 = strings_view(path@);
        if crate::assoc::strings_contain(visited, task_id) {
            return Ok(());
        }
        if crate::assoc::strings_contain(path, task_id) {
            let mut m = owned("task dependency cycle includes: ");
            m.append(task_id);
            return Err(AgentCoreError::InvalidConfig(m));
        }
        let task = match self.task(task_id) {
            Ok(t) => t,
            Err(e) => return Err(e),
        };
        path.push(owned(task_id));
        let ghost p1 = strings_view(path@);
        proof {
            assert(p1 =~= p0.push(task_id@));
            lemma_open_count_push(task_ids(g), p0, task_id@);
        }
        let ghost deps = node_deps(*task);
        let ghost v0 = strings_view(visited@);
        let ghost o0 = strings_view(ordered@);
        let ghost t = task_id@;
        assert(walk(g, t, p0, v0, o0) == (match walk_deps(g, deps, 0, p1, v0, o0) {
            WalkV::Done(v, o) => WalkV::Done(v.push(t), o),
            e => e,
        }));
        let mut i: usize = 0;
        while i < task.depends_on.len()
            invariant
                g == self.tasks_view(),
                set_sorted(task_ids(g)),
                deps == node_deps(*task),
                p0 == strings_view(old(path)@),
                v0 == strings_view(old(visited)@),
                o0 == strings_view(old(ordered)@),
                t == task_id@,
                i <= task.depends_on@.len(),
                strings_view(path@) == p1,
                open_count(task_ids(g), p1) < open_count(task_ids(g), p0),
                walk(g, t, p0, v0, o0) == (match walk_deps(g, deps, 0, p1, v0, o0) {
                    WalkV::Done(v, o) => WalkV::Done(v.push(t), o),
                    e => e,
                }),
                walk_deps(g, deps, 0, p1, v0, o0) == walk_deps(g, deps, i as int, p1, strings_view(visited@), strings_view(ordered@)),
            decreases task.depends_on.len() - i,
        {
            let dep = &task.depends_on[i];
            assert(deps[i as int] == dep@);
            let ghost vb = strings_view(visited@);
            let ghost ob = strings_view(ordered@);
            proof {
                assert(walk_deps(g, deps, i as int, p1, vb, ob) == (match walk(g, dep@, p1, vb, ob) {
                    WalkV::Done(v, o) => walk_deps(g, deps, i + 1, p1, v, if o.contains(dep@) { o } else { o.push(dep@) }),
                    e => e,
                }));
            }
            match self.visit_dependencies(dep.as_str(), path, visited, ordered) {
                Ok(()) => {},
                Err(e) => return Err(e),
            }
            let ghost oa = ordered@;
            if !crate::assoc::strings_contain(ordered, dep.as_str()) {
                ordered.push(dep.clone());
                proof {
                    assert(strings_view(ordered@) =~= strings_view(oa).push(dep@));
                }
            }
            i += 1;
        }
        let ghost before_pop = path@;
        let _ = path.pop();
        visited.push(owned(task_id));
        proof {
            assert(strings_view(path@) =~= strings_view(before_pop).drop_last());
            assert(strings_view(path@) =~= p0);
            assert(strings_view(visited@) =~= strings_view(visited@.drop_last()).push(t));
        }
        Ok(())
    }
}

impl TaskDependencyGraph {
    /// The dependencies of a task, each after its own dependencies (see [`walk`]).
    fn dependency_order(&self, task_id: &str) -> (r: AgentCoreResult<Vec<String>>)
        ensures
            match walk(self.tasks_view(), task_id@, Seq::empty(), Seq::empty(), Seq::empty()) {
                WalkV::Done(_v, o) => r matches Ok(list) && strings_view(list@) == o,
                WalkV::Cycle(t) => r matches Err(AgentCoreError::InvalidConfig(m)) && m@ == "task dependency cycle includes: "@ + t,
                WalkV::Missing(t) => r matches Err(AgentCoreError::NotFound(m)) && m@ == "task not found: "@ + t,
            },
    {
        let mut ordered: Vec<String> = Vec::new();
        let mut path: Vec<String> = Vec::new();
        let mut visited: Vec<String> = Vec::new();
        assert(strings_view(ordered@) =~= Seq::empty());
        assert(strings_view(path@) =~= Seq::empty());
        assert(strings_view(visited@) =~= Seq::empty());
        match self.visit_dependencies(task_id, &mut path, &mut visited, &mut ordered) {
            Ok(()) => Ok(ordered),
            Err(e) => Err(e),
        }
    }

    /// What a task sees: a message for each of its dependencies (in [`walk`] order) that left
    /// artifacts, then its own package. A task that is not in the graph, a dependency that is
    /// not, or a cycle among the dependencies is refused.
    pub fn context_for(&self, task_id: &str) -> (r: AgentCoreResult<Vec<RunMessage>>)
        ensures
            !has_task(self.tasks_view(), task_id@) ==> (r matches Err(AgentCoreError::NotFound(m))
                && m@ == "task not found: "@ + task_id@),
            has_task(self.tasks_view(), task_id@) ==> match walk(self.tasks_view(), task_id@, Seq::empty(), Seq::empty(), Seq::empty()) {
                WalkV::Done(_v, o) => r matches Ok(ms) && context_messages(self.tasks_view(), task_id@, o, crate::message::messages_view(ms@)),
                WalkV::Cycle(t) => r matches Err(AgentCoreError::InvalidConfig(m)) && m@ == "task dependency cycle includes: "@ + t,
                WalkV::Missing(t) => r matches Err(AgentCoreError::NotFound(m)) && m@ == "task not found: "@ + t,
            },
    {
        proof {
            use_type_invariant(self);
        }
        let ghost g = self.tasks_view();
        let task = match self.task(task_id) {
            Ok(t) => t,
            Err(e) => return Err(e),
        };
        let order = match self.dependency_order(task_id) {
            Ok(o) => o,
            Err(e) => return Err(e),
        };
        proof {
            lemma_dependency_order(g, task_id@);
        }
        let ghost ov = strings_view(order@);
        let mut messages: Vec<RunMessage> = Vec::new();
        let mut i: usize = 0;
        while i < order.len()
            invariant
                g == self.tasks_view(),
                set_sorted(task_ids(g)),
                ov == strings_view(order@),
                i <= order@.len(),
                forall|k: int| 0 <= k < ov.len() ==> has_task(g, #[trigger] ov[k]),
                messages@.len() == context_plan(g, ov.subrange(0, i as int)).len(),
                forall|k: int| 0 <= k < messages@.len() ==> is_package_message(
                    #[trigger] messages@[k].view(),
                    context_plan(g, ov.subrange(0, i as int))[k].0,
                    context_plan(g, ov.subrange(0, i as int))[k].1,
                    ContextStability::DependencyResult,
                ),
            decreases order.len() - i,
        {
            assert(has_task(g, ov[i as int]));
            let dep = match self.task(order[i].as_str()) {
                Ok(d) => d,
                Err(e) => return Err(e),
            };
            let ghost before = messages@;
            let ghost plan0 = context_plan(g, ov.subrange(0, i as int));
            proof {
                let sub = ov.subrange(0, i + 1);
                assert(sub.drop_last() =~= ov.subrange(0, i as int));
                assert(sub.last() == ov[i as int]);
            }
            if dep.package.artifacts.len() > 0 {
                let none: Vec<String> = Vec::new();
                assert(views_of(none@) =~= Seq::empty());
                let m = package_message(
                    "Dependency result",
                    dep.package.task_id.as_str(),
                    dep.package.goal.as_str(),
                    &none,
                    &dep.package.artifacts,
                    &none,
                    ContextStability::DependencyResult,
                );
                messages.push(m);
                proof {
                    let plan1 = context_plan(g, ov.subrange(0, i + 1));
                    assert(plan1 == plan0.push(plan1.last()));
                    assert forall|k: int| 0 <= k < messages@.len() implies is_package_message(
                        #[trigger] messages@[k].view(),
                        plan1[k].0,
                        plan1[k].1,
                        ContextStability::DependencyResult,
                    ) by {
                        if k < before.len() {
                            assert(messages@[k] == before[k]);
                        }
                    }
                }
            }
            i += 1;
        }
        assert(ov.subrange(0, ov.len() as int) =~= ov);
        let none: Vec<String> = Vec::new();
        assert(views_of(none@) =~= Seq::empty());
        let ghost before = messages@;
        let last = package_message(
            "Task package",
            task_id,
            task.package.goal.as_str(),
            &task.package.inputs,
            &none,
            &task.package.required_state,
            ContextStability::TaskPackage,
        );
        messages.push(last);
        proof {
            let ms = crate::message::messages_view(messages@);
            let plan = context_plan(g, ov);
            assert forall|k: int| 0 <= k < plan.len() implies is_package_message(#[trigger] ms[k], plan[k].0, plan[k].1, ContextStability::DependencyResult) by {
                assert(messages@[k] == before[k]);
            }
            assert(ms[plan.len() as int] == last.view());
        }
        Ok(messages)
    }
}

/// The sample plan: open the shop app, search its catalog (after the app is open), and
/// finish with the remembered result (after the search).
pub fn sample_mobile_task_dag() -> (r: AgentCoreResult<TaskDependencyGraph>)
    ensures
        r matches Ok(g) && g.tasks_view().len() == 3
            && has_task(g.tasks_view(), "open_app"@)
            && has_task(g.tasks_view(), "search_catalog"@)
            && has_task(g.tasks_view(), "finalize"@),
{
    proof {
        reveal_strlit("open_app");
        reveal_strlit("search_catalog");
        reveal_strlit("finalize");
    }
    let mut graph = TaskDependencyGraph::new();
    let open_app = TaskNode::new(
        TaskContextPackage::new("open_app", "Open Demo Shop and wait for the search UI.")
            .with_artifacts(vec![owned("app_open=true"), owned("screen=home")]),
    );
    let search = TaskNode::new(
        TaskContextPackage::new("search_catalog", "Search for the requested product.")
            .with_inputs(vec![owned("search_term=wireless charger")])
            .with_artifacts(vec![owned("first_result=Wireless Charger Stand")])
            .with_required_state(vec![owned("screen=home")]),
    ).depends_on(vec![owned("open_app")]);
    let finalize = TaskNode::new(
        TaskContextPackage::new("finalize", "Return the remembered product summary.")
            .with_required_state(vec![owned("first_result is known")]),
    ).depends_on(vec![owned("search_catalog")]);
    let ghost a = node_id(open_app);
    let ghost b = node_id(search);
    let ghost c = node_id(finalize);
    assert(a == "open_app"@ && b == "search_catalog"@ && c == "finalize"@);
    assert(!is_blank(a)) by {
        assert(!crate::text::is_ws(a[0]));
    }
    assert(!is_blank(b)) by {
        assert(!crate::text::is_ws(b[0]));
    }
    assert(!is_blank(c)) by {
        assert(!crate::text::is_ws(c[0]));
    }
    assert(a != b && a != c && b != c) by {
        assert(a.len() != b.len());
        assert(b.len() != c.len());
        assert(a[0] != c[0]);
    }
    assert(!has_task(graph.tasks_view(), a));
    match graph.add_task(open_app) {
        Ok(()) => {},
        Err(e) => return Err(e),
    }
    let ghost v1 = graph.tasks_view();
    assert(task_ids(v1) =~= seq![a]);
    assert(!has_task(v1, b)) by {
        assert(!seq![a].contains(b)) by {
            if seq![a].contains(b) {
                assert(seq![a][0] == b);
            }
        }
    }
    match graph.add_task(search) {
        Ok(()) => {},
        Err(e) => return Err(e),
    }
    let ghost v2 = graph.tasks_view();
    assert(v2.len() == 2);
    assert(forall|k: int| 0 <= k < 2 ==> task_ids(v2)[k] == a || task_ids(v2)[k] == b);
    assert(has_task(v2, a) && has_task(v2, b)) by {
        let p = choose|p: int| 0 <= p <= 1 && v2 == v1.insert(p, search);
        if p == 0 {
            assert(task_ids(v2)[1] == a);
            assert(task_ids(v2)[0] == b);
        } else {
            assert(task_ids(v2)[0] == a);
            assert(task_ids(v2)[1] == b);
        }
    }
    assert(!has_task(v2, c)) by {
        if task_ids(v2).contains(c) {
            let k = choose|k: int| 0 <= k < task_ids(v2).len() && task_ids(v2)[k] == c;
        }
    }
    match graph.add_task(finalize) {
        Ok(()) => {},
        Err(e) => return Err(e),
    }
    let ghost v3 = graph.tasks_view();
    assert(has_task(v3, a) && has_task(v3, b) && has_task(v3, c)) by {
        let p = choose|p: int| 0 <= p <= 2 && v3 == v2.insert(p, finalize);
        assert(task_ids(v3)[p] == c);
        let ka = choose|k: int| 0 <= k < task_ids(v2).len() && task_ids(v2)[k] == a;
        let kb = choose|k: int| 0 <= k < task_ids(v2).len() && task_ids(v2)[k] == b;
        if ka < p {
            assert(task_ids(v3)[ka] == a);
        } else {
            assert(task_ids(v3)[ka + 1] == a);
        }
        if kb < p {
            assert(task_ids(v3)[kb] == b);
        } else {
            assert(task_ids(v3)[kb + 1] == b);
        }
    }
    Ok(graph)
}
} // verus!
