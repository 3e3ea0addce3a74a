//! The package runtime: output logs, edge cursors and delivered keys, input packages, and the
//! steps that move messages from outputs into packages and activate ready nodes. The loop
//! that awaits node attempts drives these steps from outside.

use vstd::prelude::*;
use crate::assoc::{assoc_find, assoc_get, pairs_view};
use crate::error::{AgentCoreError, AgentCoreResult};
use crate::graph_query::{message_json, SelectedFields};
use crate::graph_spec::{
    package_items, Cardinality, GraphEdge, GraphSpec, GraphSpecV, InputPackageSpec, NodeConcurrency, NodeSpec,
    OutputRef, PackageItemKind, PackageItemSpec, PackageRef, ConcurrencyKey, spec_has_node,
};
use crate::json::{keys_sorted, Json};
use crate::message::{RunMessage, MessageV};
use crate::sys::new_id;
use crate::text::{dup_string, owned, str_eq, to_decimal};

verus! {

/// One message written to an output port, numbered within its log.
#[derive(Debug, Clone, PartialEq)]
pub struct OutputLogEntry {
    pub seq: u64,
    pub node: String,
    pub port: String,
    pub message: RunMessage,
    /// How many times a message with this id has been written, this one included.
    pub message_version: u64,
}

/// The log of one output port.
#[derive(Debug, Clone, PartialEq)]
pub struct OutputLog {
    pub output: OutputRef,
    pub entries: Vec<OutputLogEntry>,
}

/// What identifies one delivery of selected content over an edge.
#[derive(Debug, Clone, PartialEq, Eq, PartialOrd, Ord)]
pub struct DeliveryKey {
    pub edge_id: String,
    pub package: String,
    pub item: String,
    pub message_id: u128,
    pub selected_hash: u64,
}

pub open spec fn key_of(k: DeliveryKey) -> (Seq<char>, Seq<char>, Seq<char>, u128, u64) {
    (k.edge_id@, k.package@, k.item@, k.message_id, k.selected_hash)
}

pub open spec fn keys_of(v: Seq<DeliveryKey>) -> Seq<(Seq<char>, Seq<char>, Seq<char>, u128, u64)> {
    Seq::new(v.len(), |i: int| key_of(v[i]))
}

/// An edge's cursor into its source log and the keys it has delivered.
#[derive(Debug, Clone, PartialEq)]
pub struct EdgeState {
    pub edge_id: String,
    pub next_seq: u64,
    pub delivered: Vec<DeliveryKey>,
}

impl View for EdgeState {
    type V = EdgeState;

    open spec fn view(&self) -> EdgeState {
        *self
    }
}

impl EdgeState {
    pub fn new(edge_id: &str) -> (r: EdgeState)
        ensures
            r.edge_id@ == edge_id@ && r.next_seq == 0 && r.delivered@.len() == 0,
    {
        EdgeState { edge_id: owned(edge_id), next_seq: 0, delivered: Vec::new() }
    }
}

/// Content that matched an item of a package.
#[derive(Debug, Clone, PartialEq)]
pub struct MatchedContent {
    pub source: OutputRef,
    pub message_id: u128,
    pub message_version: u64,
    pub selected: SelectedFields,
}

/// The mathematical value of a [`MatchedContent`].
pub struct MatchedV {
    pub source: (Seq<char>, Seq<char>),
    pub message_id: u128,
    pub message_version: u64,
    pub value: crate::json::JsonV,
    pub hash: u64,
}

impl View for MatchedContent {
    type V = MatchedV;

    open spec fn view(&self) -> MatchedV {
        MatchedV {
            source: (self.source.node@, self.source.port@),
            message_id: self.message_id,
            message_version: self.message_version,
            value: self.selected.value.view(),
            hash: self.selected.hash,
        }
    }
}

pub open spec fn matches_view(s: Seq<MatchedContent>) -> Seq<MatchedV> {
    Seq::new(s.len(), |i: int| s[i]@)
}

impl MatchedContent {
    pub fn dup(&self) -> (r: MatchedContent)
        ensures
            r@ == self@,
    {
        MatchedContent {
            source: self.source.dup(),
            message_id: self.message_id,
            message_version: self.message_version,
            selected: SelectedFields { value: self.selected.value.dup(), hash: self.selected.hash },
        }
    }
}

pub fn dup_matches(v: &Vec<MatchedContent>) -> (r: Vec<MatchedContent>)
    ensures
        matches_view(r@) == matches_view(v@),
{
    let mut out: Vec<MatchedContent> = Vec::new();
    let mut i: usize = 0;
    while i < v.len()
        invariant
            i <= v.len(),
            out.len() == i,
            forall|k: int| 0 <= k < i ==> (#[trigger] out@[k])@ == v@[k]@,
        decreases v.len() - i,
    {
        out.push(v[i].dup());
        i += 1;
    }
    assert(matches_view(out@) =~= matches_view(v@));
    out
}

/// The matches held for one item of a package.
#[derive(Debug, Clone, PartialEq)]
pub struct PackageItemState {
    pub matches: Vec<MatchedContent>,
}

impl View for PackageItemState {
    type V = Seq<MatchedV>;

    open spec fn view(&self) -> Seq<MatchedV> {
        matches_view(self.matches@)
    }
}

/// The filled state of a node's input package.
#[derive(Debug, Clone, PartialEq)]
pub struct PackageState {
    pub node: String,
    pub package: String,
    /// One more for every delivery into the package.
    pub version: u64,
    /// Matches by item name, in name order.
    pub items: Vec<(String, PackageItemState)>,
    pub last_activated_version: Option<u64>,
}

/// The number of matches held for an item.
pub open spec fn item_count(items: Seq<(Seq<char>, Seq<MatchedV>)>, name: Seq<char>) -> nat {
    match assoc_get(items, name) {
        Some(ms) => ms.len(),
        None => 0,
    }
}

/// Every required item holds as many matches as its cardinality asks.
pub open spec fn package_ready(items: Seq<(Seq<char>, Seq<MatchedV>)>, spec: InputPackageSpec) -> bool {
    forall|i: int| 0 <= i < spec.required@.len() ==> {
        let it = #[trigger] spec.required@[i];
        match it.cardinality {
            Cardinality::Latest => item_count(items, it.name@) >= 1,
            Cardinality::One => item_count(items, it.name@) >= 1,
            Cardinality::AtLeast(n) => item_count(items, it.name@) >= n,
        }
    }
}

impl PackageState {
    pub fn new(node: &str, package: &str) -> (r: PackageState)
        ensures
            r.node@ == node@ && r.package@ == package@ && r.version == 0 && r.items@.len() == 0 && r.last_activated_version is None,
    {
        PackageState { node: owned(node), package: owned(package), version: 0, items: Vec::new(), last_activated_version: None }
    }

    /// Adds a match to an item: it replaces the item's matches for `Latest` and joins them
    /// otherwise. The version goes up by one.
    pub fn insert(&mut self, spec: &PackageItemSpec, content: MatchedContent)
        requires
            crate::assoc::assoc_sorted(pairs_view(old(self).items@)),
            old(self).version < u64::MAX,
        ensures
            crate::assoc::assoc_sorted(pairs_view(final(self).items@)),
            final(self).version == old(self).version + 1,
            final(self).node == old(self).node && final(self).package == old(self).package,
            final(self).last_activated_version == old(self).last_activated_version,
            pairs_view(final(self).items@) == crate::assoc::assoc_insert(
                pairs_view(old(self).items@),
                spec.name@,
                match spec.cardinality {
                    Cardinality::Latest => seq![content@],
                    _ => matches_for(pairs_view(old(self).items@), spec.name@).push(content@),
                },
            ),
    {
        let ghost before = pairs_view(self.items@);
        let ghost cv = content@;
        let mut matches: Vec<MatchedContent> = match assoc_find(&self.items, spec.name.as_str()) {
            Some(st) => dup_matches(&st.matches),
            None => Vec::new(),
        };
        proof {
            if assoc_get(before, spec.name@) is None {
                assert(matches_view(matches@) =~= Seq::<MatchedV>::empty());
            }
        }
        let ghost prev = matches_view(matches@);
        match spec.cardinality {
            Cardinality::Latest => {
                matches.clear();
                matches.push(content);
                assert(matches_view(matches@) =~= seq![cv]);
            },
            _ => {
                matches.push(content);
                assert(matches_view(matches@) =~= prev.push(cv));
            },
        }
        crate::assoc::assoc_set(&mut self.items, spec.name.as_str(), PackageItemState { matches });
        self.version = self.version + 1;
    }

    /// Whether every required item holds enough matches.
    pub fn is_ready(&self, spec: &InputPackageSpec) -> (r: bool)
        ensures
            r == package_ready(pairs_view(self.items@), *spec),
    {
        let mut i: usize = 0;
        while i < spec.required.len()
            invariant
                i <= spec.required.len(),
                forall|k: int| 0 <= k < i ==> {
                    let it = #[trigger] spec.required@[k];
                    match it.cardinality {
                        Cardinality::Latest => item_count(pairs_view(self.items@), it.name@) >= 1,
                        Cardinality::One => item_count(pairs_view(self.items@), it.name@) >= 1,
                        Cardinality::AtLeast(n) => item_count(pairs_view(self.items@), it.name@) >= n,
                    }
                },
            decreases spec.required.len() - i,
        {
            let item = &spec.required[i];
            let count = match assoc_find(&self.items, item.name.as_str()) {
                Some(st) => st.matches.len(),
                None => 0,
            };
            let enough = match item.cardinality {
                Cardinality::Latest => count >= 1,
                Cardinality::One => count >= 1,
                Cardinality::AtLeast(n) => count >= n,
            };
            if !enough {
                return false;
            }
            i += 1;
        }
        true
    }
}

/// The matches a node is started with.
#[derive(Debug, Clone, PartialEq)]
pub struct NodeInput {
    pub package: String,
    pub version: u64,
    pub required: Vec<(String, Vec<MatchedContent>)>,
    pub optional: Vec<(String, Vec<MatchedContent>)>,
}

pub open spec fn matches_for(items: Seq<(Seq<char>, Seq<MatchedV>)>, name: Seq<char>) -> Seq<MatchedV> {
    match assoc_get(items, name) {
        Some(ms) => ms,
        None => Seq::empty(),
    }
}

fn matches_of(items: &Vec<(String, PackageItemState)>, name: &str) -> (r: Vec<MatchedContent>)
    ensures
        matches_view(r@) == matches_for(pairs_view(items@), name@),
{
    match assoc_find(items, name) {
        Some(st) => dup_matches(&st.matches),
        None => {
            let v: Vec<MatchedContent> = Vec::new();
            assert(matches_view(v@) =~= Seq::<MatchedV>::empty());
            v
        },
    }
}

pub open spec fn input_view(v: Seq<(String, Vec<MatchedContent>)>) -> Seq<(Seq<char>, Seq<MatchedV>)> {
    Seq::new(v.len(), |i: int| (v[i].0@, matches_view(v[i].1@)))
}

/// Each item of `specs` with its matches in the package, by name.
pub open spec fn input_holds(r: Seq<(Seq<char>, Seq<MatchedV>)>, specs: Seq<PackageItemSpec>, items: Seq<(Seq<char>, Seq<MatchedV>)>) -> bool {
    &&& forall|k: int| 0 <= k < specs.len() ==> assoc_get(r, (#[trigger] specs[k]).name@) == Some(matches_for(items, specs[k].name@))
    &&& forall|key: Seq<char>| #[trigger] assoc_get(r, key) is Some ==> exists|k: int| 0 <= k < specs.len() && specs[k].name@ == key
}

fn collect_items(specs: &Vec<PackageItemSpec>, items: &Vec<(String, PackageItemState)>) -> (r: Vec<(String, Vec<MatchedContent>)>)
    ensures
        input_holds(input_view(r@), specs@, pairs_view(items@)),
{
    let mut out: Vec<(String, Vec<MatchedContent>)> = Vec::new();
    let ghost its = pairs_view(items@);
    let mut i: usize = 0;
    proof {
        assert(input_view(out@) =~= Seq::<(Seq<char>, Seq<MatchedV>)>::empty());
    }
    while i < specs.len()
        invariant
            i <= specs.len(),
            its == pairs_view(items@),
            input_holds(input_view(out@), specs@.subrange(0, i as int), its),
        decreases specs.len() - i,
    {
        let m = matches_of(items, specs[i].name.as_str());
        let ghost mv = matches_view(m@);
        let ghost before = input_view(out@);
        assert(mv == matches_for(its, specs@[i as int].name@));
        let mut p: usize = 0;
        while p < out.len() && !str_eq(out[p].0.as_str(), specs[i].name.as_str())
            invariant
                p <= out.len(),
                i < specs.len(),
                before == input_view(out@),
                forall|q: int| 0 <= q < p ==> out@[q].0@ != specs@[i as int].name@,
            decreases out.len() - p,
        {
            p += 1;
        }
        let found = p < out.len();
        if found {
            out.set(p, (dup_string(&specs[i].name), m));
        } else {
            out.push((dup_string(&specs[i].name), m));
        }
        proof {
            let after = input_view(out@);
            let sub = specs@.subrange(0, i + 1);
            let name = specs@[i as int].name@;
            if found {
                assert(before[p as int].0 == name);
                assert(after =~= before.update(p as int, (before[p as int].0, mv)));
                assert forall|key: Seq<char>| #![auto] true implies assoc_get(after, key) == (if key == name && forall|q: int| 0 <= q < p ==> before[q].0 != key {
                    Some(mv)
                } else {
                    assoc_get(before, key)
                }) by {
                    crate::assoc::lemma_assoc_get_update(before, p as int, mv, key);
                }
                assert(forall|q: int| 0 <= q < p ==> before[q].0 != name);
            } else {
                assert(after =~= before.push((name, mv)));
                assert forall|key: Seq<char>| #![auto] true implies assoc_get(after, key) == (if assoc_get(before, key) is None && key == name {
                    Some(mv)
                } else {
                    assoc_get(before, key)
                }) by {
                    crate::assoc::lemma_assoc_get_push(before, name, mv, key);
                }
                crate::assoc::lemma_assoc_get_index(before, name);
            }
            assert forall|k: int| 0 <= k < sub.len() implies assoc_get(after, (#[trigger] sub[k]).name@) == Some(matches_for(its, sub[k].name@)) by {
                if k < i {
                    assert(sub[k] == specs@.subrange(0, i as int)[k]);
                }
            }
            assert forall|key: Seq<char>| #[trigger] assoc_get(after, key) is Some implies exists|k: int| 0 <= k < sub.len() && sub[k].name@ == key by {
                if key == name {
                    assert(sub[i as int].name@ == key);
                } else {
                    assert(assoc_get(before, key) is Some);
                    let k = choose|k: int| 0 <= k < i && specs@.subrange(0, i as int)[k].name@ == key;
                    assert(sub[k] == specs@.subrange(0, i as int)[k]);
                }
            }
        }
        i += 1;
    }
    proof {
        assert(specs@.subrange(0, i as int) =~= specs@);
    }
    out
}

impl NodeInput {
    /// The input for a package: each required and optional item's matches, by name.
    pub fn from_package(spec: &InputPackageSpec, state: &PackageState) -> (r: NodeInput)
        requires
            crate::assoc::assoc_sorted(pairs_view(state.items@)),
        ensures
            r.package@ == state.package@,
            r.version == state.version,
            input_holds(input_view(r.required@), spec.required@, pairs_view(state.items@)),
            input_holds(input_view(r.optional@), spec.optional@, pairs_view(state.items@)),
    {
        NodeInput {
            package: dup_string(&state.package),
            version: state.version,
            required: collect_items(&spec.required, &state.items),
            optional: collect_items(&spec.optional, &state.items),
        }
    }
}

/// What a node attempt wrote, by output port.
#[derive(Debug, Clone, PartialEq)]
pub struct NodeOutput {
    pub messages: Vec<(String, Vec<RunMessage>)>,
}

impl NodeOutput {
    pub fn new() -> (r: NodeOutput)
        ensures
            r.messages@.len() == 0,
    {
        NodeOutput { messages: Vec::new() }
    }

    /// Appends a message to a port.
    pub fn with_message(self, port: &str, message: RunMessage) -> (r: NodeOutput)
        requires
            crate::assoc::assoc_sorted(pairs_view(self.messages@)),
        ensures
            crate::assoc::assoc_sorted(pairs_view(r.messages@)),
            pairs_view(r.messages@) == crate::assoc::assoc_insert(
                pairs_view(self.messages@),
                port@,
                (match assoc_get(pairs_view(self.messages@), port@) {
                    Some(ms) => ms,
                    None => Seq::empty(),
                }).push(message),
            ),
    {
        let mut o = self;
        let ghost s0 = pairs_view(o.messages@);
        let ghost mv = message;
        let mut p: usize = 0;
        while p < o.messages.len() && crate::text::str_lt(o.messages[p].0.as_str(), port)
            invariant
                p <= o.messages.len(),
                s0 == pairs_view(o.messages@),
                forall|i: int| 0 <= i < p ==> crate::text::seq_lt(#[trigger] s0[i].0, port@),
            decreases o.messages.len() - p,
        {
            p += 1;
        }
        if p < o.messages.len() && str_eq(o.messages[p].0.as_str(), port) {
            proof {
                crate::assoc::lemma_assoc_get_at(s0, p as int);
            }
            let (k, mut ms) = o.messages.remove(p);
            ms.push(message);
            let ghost entry = (k@, ms@);
            o.messages.insert(p, (k, ms));
            proof {
                crate::assoc::lemma_assoc_insert_at(s0, port@, entry.1, p as int);
                assert(pairs_view(o.messages@) =~= s0.update(p as int, (port@, entry.1)));
            }
        } else {
            let mut ms: Vec<RunMessage> = Vec::new();
            ms.push(message);
            proof {
                crate::assoc::lemma_assoc_get_index(s0, port@);
                if assoc_get(s0, port@) is Some {
                    let j = choose|j: int| 0 <= j < s0.len() && s0[j].0 == port@ && s0[j].1 == assoc_get(s0, port@)->0
                        && forall|q: int| 0 <= q < j ==> s0[q].0 != port@;
                    if j < p {
                        crate::text::lemma_seq_lt_irrefl(port@);
                    } else if j > p {
                        crate::text::lemma_seq_lt_total(s0[p as int].0, port@);
                        crate::text::lemma_seq_lt_trans(port@, s0[p as int].0, s0[j].0);
                        crate::text::lemma_seq_lt_irrefl(port@);
                    }
                }
                assert(ms@ =~= Seq::<RunMessage>::empty().push(mv));
                crate::assoc::lemma_assoc_insert_at(s0, port@, ms@, p as int);
            }
            let ghost entry = ms@;
            o.messages.insert(p, (owned(port), ms));
            proof {
                assert(pairs_view(o.messages@) =~= s0.insert(p as int, (port@, entry)));
            }
        }
        o
    }
}

/// A node waiting to be started.
#[derive(Debug, Clone, PartialEq)]
pub struct NodeActivation {
    pub id: u128,
    pub node: String,
    pub package: String,
    pub package_version: u64,
    pub input: NodeInput,
}

/// The record of one delivery.
#[derive(Debug, Clone, PartialEq)]
pub struct EdgeTransferRecord {
    pub edge_id: String,
    pub from: OutputRef,
    pub to: PackageRef,
    pub item: String,
    pub message_id: u128,
    pub message_version: u64,
    pub selected_hash: u64,
}

pub open spec fn transfer_key(t: EdgeTransferRecord) -> (Seq<char>, Seq<char>, Seq<char>, u128, u64) {
    (t.edge_id@, t.to.package@, t.item@, t.message_id, t.selected_hash)
}

#[derive(Debug, Clone, Copy, PartialEq, Eq, Structural)]
pub enum NodeAttemptStatus {
    Completed,
    Failed,
}

#[derive(Debug, Clone, PartialEq)]
pub struct NodeAttemptRecord {
    pub attempt_id: u128,
    pub node: String,
    pub package_version: u64,
    pub status: NodeAttemptStatus,
}

/// What the runtime reports as it goes.
#[derive(Debug, Clone, PartialEq)]
pub enum RuntimeEvent {
    EdgeScanned { edge_id: String, from_seq: u64 },
    MessageFiltered { edge_id: String, seq: u64 },
    PackageUpdated { node: String, package: String, version: u64 },
    NodeActivated { node: String, package_version: u64 },
    NodeCompleted { node: String },
    NodeFailed { node: String, error: String },
}

#[derive(Debug, Clone, PartialEq)]
pub struct GraphRunLedger {
    pub transfers: Vec<EdgeTransferRecord>,
    pub node_attempts: Vec<NodeAttemptRecord>,
    pub events: Vec<RuntimeEvent>,
}

/// The runtime's whole state.
#[derive(Debug, Clone, PartialEq)]
pub struct GraphRuntimeState {
    /// One log per output written to.
    pub output_logs: Vec<OutputLog>,
    /// Edge cursors by edge id.
    pub edge_states: Vec<(String, EdgeState)>,
    /// One package state per node, in node order.
    pub package_states: Vec<PackageState>,
}

/// What to run a package graph with.
#[derive(Debug, Clone, PartialEq)]
pub struct GraphRunInput {
    pub run_id: Option<u128>,
    pub initial_messages: Vec<RunMessage>,
    pub max_ticks: usize,
}

impl GraphRunInput {
    /// Input messages with a fresh run id and ten thousand ticks.
    pub fn new(initial_messages: Vec<RunMessage>) -> (r: GraphRunInput)
        ensures
            r.run_id is None && r.initial_messages == initial_messages && r.max_ticks == 10_000,
    {
        GraphRunInput { run_id: None, initial_messages, max_ticks: 10_000 }
    }

    pub fn with_run_id(self, run_id: u128) -> (r: GraphRunInput)
        ensures
            r.run_id == Some(run_id) && r.initial_messages == self.initial_messages && r.max_ticks == self.max_ticks,
    {
        let mut i = self;
        i.run_id = Some(run_id);
        i
    }

    pub fn with_max_ticks(self, max_ticks: usize) -> (r: GraphRunInput)
        ensures
            r.run_id == self.run_id && r.initial_messages == self.initial_messages && r.max_ticks == max_ticks,
    {
        let mut i = self;
        i.max_ticks = max_ticks;
        i
    }
}

#[derive(Debug, Clone, Copy, PartialEq, Eq, Structural)]
pub enum GraphRunStatus {
    Completed,
    Drained,
    BudgetExceeded,
    Failed,
}

#[derive(Debug, Clone, PartialEq)]
pub struct GraphRunOutput {
    pub status: GraphRunStatus,
    pub messages: Vec<RunMessage>,
    pub state: GraphRuntimeState,
    pub ledger: GraphRunLedger,
    pub error: Option<String>,
}

/// Who a node attempt is.
#[derive(Debug, Clone, PartialEq)]
pub struct NodeExecutionContext {
    pub run_id: u128,
    pub attempt_id: u128,
    pub node_id: String,
}

/// Running attempts per node and per (node, key).
#[derive(Debug, Clone, PartialEq)]
pub struct RunningCounts {
    pub by_node: Vec<(String, usize)>,
    pub by_key: Vec<(String, String, usize)>,
}

pub open spec fn node_count(c: RunningCounts, node: Seq<char>) -> usize {
    match assoc_get(pairs_view(c.by_node@), node) {
        Some(n) => n,
        None => 0,
    }
}

/// The count under (node, key), the first entry for the pair.
pub open spec fn key_count(entries: Seq<(String, String, usize)>, node: Seq<char>, key: Seq<char>) -> usize
    decreases entries.len(),
{
    if entries.len() == 0 {
        0
    } else if entries[0].0@ == node && entries[0].1@ == key {
        entries[0].2
    } else {
        key_count(entries.drop_first(), node, key)
    }
}

/// Lowers a count by one, not below zero.
pub fn decrement(value: Option<&mut usize>)
    ensures
        match value {
            Some(v) => *final(v) == if *v > 0 { (*v - 1) as usize } else { 0 },
            None => true,
        },
{
    if let Some(v) = value {
        *v = if *v > 0 { *v - 1 } else { 0 };
    }
}

fn find_key(entries: &Vec<(String, String, usize)>, node: &str, key: &str) -> (r: Option<usize>)
    ensures
        match r {
            Some(i) => i < entries.len() && entries@[i as int].0@ == node@ && entries@[i as int].1@ == key@
                && key_count(entries@, node@, key@) == entries@[i as int].2
                && forall|k: int| 0 <= k < i ==> !(entries@[k].0@ == node@ && entries@[k].1@ == key@),
            None => key_count(entries@, node@, key@) == 0 && forall|k: int| 0 <= k < entries.len() ==> !(entries@[k].0@ == node@ && entries@[k].1@ == key@),
        },
{
    let ghost s = entries@;
    assert(s.subrange(0, s.len() as int) =~= s);
    let mut i: usize = 0;
    while i < entries.len()
        invariant
            i <= entries.len(),
            s == entries@,
            key_count(s, node@, key@) == key_count(s.subrange(i as int, s.len() as int), node@, key@),
            forall|k: int| 0 <= k < i ==> !(s[k].0@ == node@ && s[k].1@ == key@),
        decreases entries.len() - i,
    {
        let ghost sub = s.subrange(i as int, s.len() as int);
        assert(sub[0] == s[i as int]);
        if str_eq(entries[i].0.as_str(), node) && str_eq(entries[i].1.as_str(), key) {
            return Some(i);
        }
        assert(sub.drop_first() =~= s.subrange(i + 1, s.len() as int));
        i += 1;
    }
    None
}

impl RunningCounts {
    pub fn new() -> (r: RunningCounts)
        ensures
            r.by_node@.len() == 0 && r.by_key@.len() == 0,
    {
        RunningCounts { by_node: Vec::new(), by_key: Vec::new() }
    }

    /// Whether the node's concurrency admits one more attempt for this activation.
    pub fn admits(&self, node: &NodeSpec, activation: &NodeActivation) -> (r: bool)
        ensures
            r == match node.concurrency {
                NodeConcurrency::Serial => node_count(*self, node.id@) == 0,
                NodeConcurrency::Parallel { max } => node_count(*self, node.id@) < max,
                NodeConcurrency::ByKey { key, max_per_key } => match concurrency_value_spec(key, activation.input) {
                    None => node_count(*self, node.id@) == 0,
                    Some(v) => key_count(self.by_key@, node.id@, v) < max_per_key,
                },
            },
    {
        let running = match assoc_find(&self.by_node, node.id.as_str()) {
            Some(n) => *n,
            None => 0,
        };
        match &node.concurrency {
            NodeConcurrency::Serial => running == 0,
            NodeConcurrency::Parallel { max } => running < *max,
            NodeConcurrency::ByKey { key, max_per_key } => match concurrency_value(key, &activation.input) {
                None => running == 0,
                Some(v) => {
                    let c = match find_key(&self.by_key, node.id.as_str(), v.as_str()) {
                        Some(i) => self.by_key[i].2,
                        None => 0,
                    };
                    c < *max_per_key
                },
            },
        }
    }

    /// Counts one more running attempt of the node (and of its key).
    pub fn start(&mut self, node: &NodeSpec, key: Option<String>)
        requires
            crate::assoc::assoc_sorted(pairs_view(old(self).by_node@)),
            node_count(*old(self), node.id@) < usize::MAX,
            key matches Some(k) ==> key_count(old(self).by_key@, node.id@, k@) < usize::MAX,
        ensures
            crate::assoc::assoc_sorted(pairs_view(final(self).by_node@)),
            node_count(*final(self), node.id@) == node_count(*old(self), node.id@) + 1,
            forall|other: Seq<char>| other != node.id@ ==> node_count(*final(self), other) == node_count(*old(self), other),
            key matches Some(k) ==> key_count(final(self).by_key@, node.id@, k@) == key_count(old(self).by_key@, node.id@, k@) + 1,
            key is None ==> final(self).by_key == old(self).by_key,
    {
        let ghost before = pairs_view(self.by_node@);
        let n = match assoc_find(&self.by_node, node.id.as_str()) {
            Some(n) => *n,
            None => 0,
        };
        crate::assoc::assoc_set(&mut self.by_node, node.id.as_str(), n + 1);
        proof {
            assert forall|other: Seq<char>| #![auto] true implies assoc_get(pairs_view(self.by_node@), other) == (if other == node.id@ {
                Some((n + 1) as usize)
            } else {
                assoc_get(before, other)
            }) by {
                crate::assoc::lemma_assoc_get_insert(before, node.id@, (n + 1) as usize, other);
            }
        }
        if let Some(k) = key {
            match find_key(&self.by_key, node.id.as_str(), k.as_str()) {
                Some(i) => {
                    let c = self.by_key[i].2;
                    let ghost s = self.by_key@;
                    self.by_key.set(i, (dup_string(&node.id), k, c + 1));
                    proof {
                        lemma_key_count_update(s, i as int, self.by_key@[i as int]);
                    }
                },
                None => {
                    let ghost s = self.by_key@;
                    self.by_key.push((dup_string(&node.id), k, 1));
                    proof {
                        lemma_key_count_push_new(s, self.by_key@.last(), node.id@);
                    }
                },
            }
        }
    }

    /// Counts one attempt of the node (and of its key) as finished.
    pub fn finish(&mut self, node_id: &str, key: Option<String>)
        requires
            crate::assoc::assoc_sorted(pairs_view(old(self).by_node@)),
        ensures
            crate::assoc::assoc_sorted(pairs_view(final(self).by_node@)),
            node_count(*final(self), node_id@) == if node_count(*old(self), node_id@) > 0 {
                (node_count(*old(self), node_id@) - 1) as usize
            } else {
                0
            },
            forall|other: Seq<char>| other != node_id@ ==> node_count(*final(self), other) == node_count(*old(self), other),
            key matches Some(k) ==> key_count(final(self).by_key@, node_id@, k@) == if key_count(old(self).by_key@, node_id@, k@) > 0 {
                (key_count(old(self).by_key@, node_id@, k@) - 1) as usize
            } else {
                0
            },
            key is None ==> final(self).by_key == old(self).by_key,
    {
        let ghost before = pairs_view(self.by_node@);
        match assoc_find(&self.by_node, node_id) {
            Some(n) => {
                let mut v: usize = *n;
                decrement(Some(&mut v));
                crate::assoc::assoc_set(&mut self.by_node, node_id, v);
                proof {
                    assert forall|other: Seq<char>| #![auto] true implies assoc_get(pairs_view(self.by_node@), other) == (if other == node_id@ {
                        Some(v)
                    } else {
                        assoc_get(before, other)
                    }) by {
                        crate::assoc::lemma_assoc_get_insert(before, node_id@, v, other);
                    }
                }
            },
            None => {},
        }
        if let Some(k) = key {
            match find_key(&self.by_key, node_id, k.as_str()) {
                Some(i) => {
                    let mut c: usize = self.by_key[i].2;
                    decrement(Some(&mut c));
                    let ghost s = self.by_key@;
                    self.by_key.set(i, (owned(node_id), k, c));
                    proof {
                        lemma_key_count_update(s, i as int, self.by_key@[i as int]);
                    }
                },
                None => {},
            }
        }
    }
}

proof fn lemma_key_count_update(s: Seq<(String, String, usize)>, i: int, e: (String, String, usize))
    requires
        0 <= i < s.len(),
        forall|q: int| 0 <= q < i ==> !(s[q].0@ == e.0@ && s[q].1@ == e.1@),
    ensures
        key_count(s.update(i, e), e.0@, e.1@) == e.2,
    decreases s.len(),
{
    let u = s.update(i, e);
    if i == 0 {
        assert(u[0] == e);
    } else {
        assert(u[0] == s[0]);
        assert(!(s[0].0@ == e.0@ && s[0].1@ == e.1@));
        assert(u.drop_first() =~= s.drop_first().update(i - 1, e));
        assert forall|q: int| 0 <= q < i - 1 implies !(s.drop_first()[q].0@ == e.0@ && s.drop_first()[q].1@ == e.1@) by {
            assert(s.drop_first()[q] == s[q + 1]);
        }
        lemma_key_count_update(s.drop_first(), i - 1, e);
    }
}

proof fn lemma_key_count_push_new(s: Seq<(String, String, usize)>, e: (String, String, usize), node: Seq<char>)
    requires
        key_count(s, e.0@, e.1@) == 0,
        forall|k: int| 0 <= k < s.len() ==> !(s[k].0@ == e.0@ && s[k].1@ == e.1@),
    ensures
        key_count(s.push(e), e.0@, e.1@) == e.2,
    decreases s.len(),
{
    if s.len() == 0 {
        assert(s.push(e)[0] == e);
    } else {
        assert(s.push(e)[0] == s[0]);
        assert(s.push(e).drop_first() =~= s.drop_first().push(e));
        assert forall|k: int| 0 <= k < s.drop_first().len() implies !(s.drop_first()[k].0@ == e.0@ && s.drop_first()[k].1@ == e.1@) by {
            assert(s.drop_first()[k] == s[k + 1]);
        }
        lemma_key_count_push_new(s.drop_first(), e, node);
    }
}

/// The hash of the first match of the key's item (required items first), as decimal text.
pub open spec fn concurrency_value_spec(key: ConcurrencyKey, input: NodeInput) -> Option<Seq<char>> {
    let found = match assoc_get(pairs_view(input.required@), key.item@) {
        Some(ms) => Some(ms),
        None => assoc_get(pairs_view(input.optional@), key.item@),
    };
    match found {
        Some(ms) => if ms.len() > 0 {
            Some(crate::text::decimal(ms[0].selected.hash as nat))
        } else {
            None
        },
        None => None,
    }
}

pub fn concurrency_value(key: &ConcurrencyKey, input: &NodeInput) -> (r: Option<String>)
    ensures
        match r {
            Some(s) => concurrency_value_spec(*key, *input) == Some(s@),
            None => concurrency_value_spec(*key, *input) is None,
        },
{
    let found = match assoc_find(&input.required, key.item.as_str()) {
        Some(ms) => Some(ms),
        None => assoc_find(&input.optional, key.item.as_str()),
    };
    match found {
        Some(ms) => if ms.len() > 0 {
            Some(to_decimal(ms[0].selected.hash))
        } else {
            None
        },
        None => None,
    }
}


} // verus!
