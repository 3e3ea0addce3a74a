//! A turn loop: messages wait in a buffer, each turn takes some of them (as an input
//! generator decides), runs a graph over them, and keeps every message of the conversation
//! once; after a stop is requested, new items are set aside.

use vstd::prelude::*;
use crate::error::{AgentCoreError, AgentCoreResult};
use crate::event::CoreEvent;
use crate::graph::Graph;
use crate::graph::GraphV;
use crate::graph_runner::{no_agent_nodes, run_outcome, GraphRunInput, GraphRunResult, GraphRunner, RunOutcome};
use crate::message::{MessageRole, MessageStatus, MessageV, RunMessage, dup_messages, messages_view};
use crate::sys::new_id;
use crate::text::owned;

verus! {

/// Where the loop is.
#[derive(Debug, Clone, Copy, PartialEq, Eq, Structural)]
pub enum TurnLoopState {
    Idle,
    Running,
    Stopping,
    Stopped,
}

/// Which history a turn sees.
#[derive(Debug, Clone, Copy, PartialEq, Eq, Structural)]
pub enum TurnContextPolicy {
    FullHistory,
    LatestUserOnly,
    LastMessages(usize),
}

impl Default for TurnContextPolicy {
    fn default() -> (r: TurnContextPolicy)
        ensures
            r == TurnContextPolicy::FullHistory,
    {
        TurnContextPolicy::FullHistory
    }
}

/// What an input generator is given: the waiting items, the history and the policy.
#[derive(Debug)]
pub struct TurnGenInput {
    pub pending_items: Vec<RunMessage>,
    pub history: Vec<RunMessage>,
    pub context_policy: TurnContextPolicy,
}

/// What an input generator answers: the turn's context, the ids of the items it took, and
/// the items left waiting.
#[derive(Debug)]
pub struct TurnGenInputResult {
    pub input_messages: Vec<RunMessage>,
    pub consumed: Vec<u128>,
    pub remaining: Vec<RunMessage>,
}

impl TurnGenInputResult {
    pub fn new(input_messages: Vec<RunMessage>, consumed: Vec<u128>) -> (r: TurnGenInputResult)
        ensures
            r.input_messages == input_messages && r.consumed == consumed && r.remaining@.len() == 0,
    {
        TurnGenInputResult { input_messages, consumed, remaining: Vec::new() }
    }

    pub fn with_remaining(self, remaining: Vec<RunMessage>) -> (r: TurnGenInputResult)
        ensures
            r.input_messages == self.input_messages && r.consumed == self.consumed && r.remaining == remaining,
    {
        TurnGenInputResult { remaining, ..self }
    }
}

/// What a graph preparer is given for a turn.
#[derive(Debug)]
pub struct TurnPrepareGraphInput {
    pub turn_id: u128,
    pub consumed: Vec<RunMessage>,
    pub input_messages: Vec<RunMessage>,
    pub history: Vec<RunMessage>,
}

/// What an event handler is given after a turn's graph ran.
#[derive(Debug)]
pub struct TurnEventBatch {
    pub turn_id: u128,
    pub events: Vec<CoreEvent>,
    pub appended_messages: Vec<RunMessage>,
}

/// One turn: the items it took, those left, its context, the messages it added and the run.
#[derive(Debug)]
pub struct TurnRunResult {
    pub turn_id: u128,
    pub consumed: Vec<RunMessage>,
    pub remaining: Vec<RunMessage>,
    pub context_messages: Vec<RunMessage>,
    pub appended_messages: Vec<RunMessage>,
    pub graph: GraphRunResult,
}

/// Chooses a turn's context and the items it takes. Its answers are the implementer's.
pub trait TurnInputGenerator {
    fn generate(&self, input: TurnGenInput) -> AgentCoreResult<TurnGenInputResult>;
}

/// Gives the graph a turn runs. Its answers are the implementer's.
pub trait TurnGraphPreparer {
    fn prepare(&self, input: TurnPrepareGraphInput) -> AgentCoreResult<Graph>;
}

/// Receives each turn's events and added messages.
pub trait TurnEventHandler {
    fn handle(&self, batch: TurnEventBatch) -> AgentCoreResult<()>;
}

/// The history a policy keeps: all of it, none of it, or its last `n` messages.
pub open spec fn policy_history(history: Seq<RunMessage>, policy: TurnContextPolicy) -> Seq<RunMessage> {
    match policy {
        TurnContextPolicy::FullHistory => history,
        TurnContextPolicy::LatestUserOnly => Seq::empty(),
        TurnContextPolicy::LastMessages(n) => if n >= history.len() {
            history
        } else {
            history.subrange(history.len() - n, history.len() as int)
        },
    }
}

pub open spec fn ids_of(s: Seq<RunMessage>) -> Seq<u128> {
    Seq::new(s.len(), |i: int| s[i].id)
}

/// The default input: the history the policy keeps followed by every waiting item, all of
/// which are taken.
pub fn default_gen_input(input: TurnGenInput) -> (r: TurnGenInputResult)
    ensures
        messages_view(r.input_messages@) == messages_view(policy_history(input.history@, input.context_policy) + input.pending_items@),
        r.consumed@ == ids_of(input.pending_items@),
        r.remaining@.len() == 0,
{
    let TurnGenInput { pending_items, history, context_policy } = input;
    let ghost h = history@;
    let mut kept: Vec<RunMessage> = match context_policy {
        TurnContextPolicy::FullHistory => history,
        TurnContextPolicy::LatestUserOnly => Vec::new(),
        TurnContextPolicy::LastMessages(n) => {
            let start = if n >= history.len() { 0 } else { history.len() - n };
            let mut v: Vec<RunMessage> = Vec::new();
            let mut i: usize = start;
            while i < history.len()
                invariant
                    start <= i <= history@.len(),
                    h == history@,
                    messages_view(v@) == messages_view(h.subrange(start as int, i as int)),
                decreases history.len() - i,
            {
                let ghost v0 = messages_view(v@);
                v.push(history[i].dup());
                proof {
                    assert(messages_view(v@) =~= v0.push(h[i as int].view()));
                    assert(messages_view(h.subrange(start as int, i + 1)) =~= messages_view(h.subrange(start as int, i as int)).push(h[i as int].view()));
                }
                i += 1;
            }
            proof {
                if n >= h.len() {
                    assert(h.subrange(0, h.len() as int) =~= h);
                }
            }
            v
        },
    };
    let ghost k0 = messages_view(kept@);
    let mut consumed: Vec<u128> = Vec::new();
    let mut i: usize = 0;
    while i < pending_items.len()
        invariant
            i <= pending_items@.len(),
            messages_view(kept@) == k0 + messages_view(pending_items@.subrange(0, i as int)),
            consumed@ == ids_of(pending_items@.subrange(0, i as int)),
        decreases pending_items.len() - i,
    {
        let ghost kv = messages_view(kept@);
        kept.push(pending_items[i].dup());
        consumed.push(pending_items[i].id);
        proof {
            assert(messages_view(kept@) =~= kv.push(pending_items@[i as int].view()));
            assert(messages_view(pending_items@.subrange(0, i + 1)) =~= messages_view(pending_items@.subrange(0, i as int)).push(pending_items@[i as int].view()));
            assert(consumed@ =~= ids_of(pending_items@.subrange(0, i + 1)));
        }
        i += 1;
    }
    proof {
        assert(pending_items@.subrange(0, i as int) =~= pending_items@);
        assert(messages_view(policy_history(h, context_policy) + pending_items@) =~= messages_view(policy_history(h, context_policy)) + messages_view(pending_items@));
    }
    TurnGenInputResult::new(kept, consumed)
}

/// The generator that uses [`default_gen_input`].
#[derive(Debug, Clone, Copy)]
pub struct DefaultGenInput;

impl TurnInputGenerator for DefaultGenInput {
    fn generate(&self, input: TurnGenInput) -> (r: AgentCoreResult<TurnGenInputResult>)
        ensures
            r matches Ok(g) && messages_view(g.input_messages@) == messages_view(policy_history(input.history@, input.context_policy) + input.pending_items@)
                && g.consumed@ == ids_of(input.pending_items@) && g.remaining@.len() == 0,
    {
        Ok(default_gen_input(input))
    }
}

/// The waiting items whose ids were taken, in their waiting order; refused when an id names
/// no waiting item.
pub fn consumed_items(pending_items: &Vec<RunMessage>, consumed_ids: &Vec<u128>) -> (r: AgentCoreResult<Vec<RunMessage>>)
    ensures
        (forall|k: int| 0 <= k < consumed_ids@.len() ==> ids_of(pending_items@).contains(#[trigger] consumed_ids@[k])) <==> r is Ok,
        r matches Err(e) ==> e is InvalidInput,
        r matches Ok(v) ==> messages_view(v@) == messages_view(taken(pending_items@, consumed_ids@)),
{
    let mut k: usize = 0;
    while k < consumed_ids.len()
        invariant
            k <= consumed_ids@.len(),
            forall|q: int| 0 <= q < k ==> ids_of(pending_items@).contains(#[trigger] consumed_ids@[q]),
        decreases consumed_ids.len() - k,
    {
        if !contains_id(pending_items, consumed_ids[k]) {
            let mut t = owned("GenInput consumed unknown item id: ");
            t.append(crate::graph_query::uuid_text(consumed_ids[k]).as_str());
            return Err(AgentCoreError::InvalidInput(t));
        }
        k += 1;
    }
    let mut out: Vec<RunMessage> = Vec::new();
    let mut i: usize = 0;
    proof {
        assert(pending_items@.subrange(0, 0) =~= Seq::<RunMessage>::empty());
        assert(messages_view(out@) =~= Seq::empty());
    }
    while i < pending_items.len()
        invariant
            i <= pending_items@.len(),
            messages_view(out@) == messages_view(taken(pending_items@.subrange(0, i as int), consumed_ids@)),
        decreases pending_items.len() - i,
    {
        proof {
            assert(pending_items@.subrange(0, i + 1).drop_last() =~= pending_items@.subrange(0, i as int));
        }
        if vec_contains_id(consumed_ids, pending_items[i].id) {
            let ghost o0 = messages_view(out@);
            out.push(pending_items[i].dup());
            proof {
                assert(messages_view(out@) =~= o0.push(pending_items@[i as int].view()));
                assert(messages_view(taken(pending_items@.subrange(0, i + 1), consumed_ids@)) =~= messages_view(taken(pending_items@.subrange(0, i as int), consumed_ids@)).push(pending_items@[i as int].view()));
            }
        }
        i += 1;
    }
    proof {
        assert(pending_items@.subrange(0, i as int) =~= pending_items@);
    }
    Ok(out)
}

/// The items whose ids are among `ids`, in order.
pub open spec fn taken(items: Seq<RunMessage>, ids: Seq<u128>) -> Seq<RunMessage>
    decreases items.len(),
{
    if items.len() == 0 {
        Seq::empty()
    } else {
        let rest = taken(items.drop_last(), ids);
        if ids.contains(items.last().id) {
            rest.push(items.last())
        } else {
            rest
        }
    }
}

fn contains_id(items: &Vec<RunMessage>, id: u128) -> (r: bool)
    ensures
        r == ids_of(items@).contains(id),
{
    let mut i: usize = 0;
    while i < items.len()
        invariant
            i <= items@.len(),
            forall|k: int| 0 <= k < i ==> items@[k].id != id,
        decreases items.len() - i,
    {
        if items[i].id == id {
            assert(ids_of(items@)[i as int] == id);
            return true;
        }
        i += 1;
    }
    assert(!ids_of(items@).contains(id)) by {
        if ids_of(items@).contains(id) {
            let k = choose|k: int| 0 <= k < ids_of(items@).len() && ids_of(items@)[k] == id;
            assert(items@[k].id == id);
        }
    }
    false
}

fn vec_contains_id(ids: &Vec<u128>, id: u128) -> (r: bool)
    ensures
        r == ids@.contains(id),
{
    let mut i: usize = 0;
    while i < ids.len()
        invariant
            i <= ids@.len(),
            forall|k: int| 0 <= k < i ==> ids@[k] != id,
        decreases ids.len() - i,
    {
        if ids[i] == id {
            return true;
        }
        i += 1;
    }
    false
}

/// No id occurs twice.
pub open spec fn ids_distinct(s: Seq<RunMessage>) -> bool {
    forall|i: int, j: int| 0 <= i < j < s.len() ==> (#[trigger] s[i]).id != (#[trigger] s[j]).id
}

/// The messages added from `batch`: those whose id is new, each once, in order.
pub open spec fn new_messages(known: Seq<RunMessage>, batch: Seq<RunMessage>) -> Seq<RunMessage>
    decreases batch.len(),
{
    if batch.len() == 0 {
        Seq::empty()
    } else {
        let rest = new_messages(known, batch.drop_last());
        if ids_of(known + rest).contains(batch.last().id) {
            rest
        } else {
            rest.push(batch.last())
        }
    }
}

/// The ids of messages, in order.
pub open spec fn ids_v(s: Seq<MessageV>) -> Seq<u128> {
    Seq::new(s.len(), |i: int| s[i].id)
}

/// [`new_messages`] on message values.
pub open spec fn new_messages_v(known: Seq<MessageV>, batch: Seq<MessageV>) -> Seq<MessageV>
    decreases batch.len(),
{
    if batch.len() == 0 {
        Seq::empty()
    } else {
        let rest = new_messages_v(known, batch.drop_last());
        if ids_v(known + rest).contains(batch.last().id) {
            rest
        } else {
            rest.push(batch.last())
        }
    }
}

/// The messages whose ids are not among `ids`, in order.
pub open spec fn outside_context(ms: Seq<MessageV>, ids: Seq<u128>) -> Seq<MessageV>
    decreases ms.len(),
{
    if ms.len() == 0 {
        Seq::empty()
    } else {
        let rest = outside_context(ms.drop_last(), ids);
        if ids.contains(ms.last().id) {
            rest
        } else {
            rest.push(ms.last())
        }
    }
}

/// What a turn run with the default input and a set graph did: its context is the history
/// the policy keeps followed by the waiting items, all of which it took; the graph ran over
/// the context; the items joined the conversation, then the messages the graph emitted
/// that were not in the context.
pub open spec fn plain_turn(h: Seq<RunMessage>, p: Seq<RunMessage>, pol: TurnContextPolicy, g: GraphV, t: TurnRunResult, after: Seq<RunMessage>) -> bool {
    let taken_in = messages_view(h) + new_messages_v(messages_view(h), messages_view(p));
    &&& messages_view(t.context_messages@) == messages_view(policy_history(h, pol) + p)
    &&& messages_view(t.consumed@) == messages_view(p)
    &&& t.remaining@.len() == 0
    &&& run_outcome(g, messages_view(t.context_messages@), t.graph.run_id, false)
        == (RunOutcome::Ended { status: t.graph.status, state: t.graph.state.view() })
    &&& messages_view(t.appended_messages@) == new_messages_v(
        taken_in,
        outside_context(messages_view(t.graph.messages@), ids_v(messages_view(t.context_messages@))),
    )
    &&& messages_view(after) == taken_in + messages_view(t.appended_messages@)
}

proof fn lemma_ids_view(s: Seq<RunMessage>)
    ensures
        ids_of(s) == ids_v(messages_view(s)),
{
    assert(ids_of(s) =~= ids_v(messages_view(s)));
}

proof fn lemma_view_add(a: Seq<RunMessage>, b: Seq<RunMessage>)
    ensures
        messages_view(a + b) == messages_view(a) + messages_view(b),
{
    assert(messages_view(a + b) =~= messages_view(a) + messages_view(b));
}

proof fn lemma_new_messages_view(known: Seq<RunMessage>, batch: Seq<RunMessage>)
    ensures
        messages_view(new_messages(known, batch)) == new_messages_v(messages_view(known), messages_view(batch)),
    decreases batch.len(),
{
    if batch.len() == 0 {
        assert(messages_view(Seq::<RunMessage>::empty()) =~= Seq::<MessageV>::empty());
        assert(messages_view(batch) =~= Seq::<MessageV>::empty());
    } else {
        lemma_new_messages_view(known, batch.drop_last());
        let rest = new_messages(known, batch.drop_last());
        assert(messages_view(batch.drop_last()) =~= messages_view(batch).drop_last());
        lemma_ids_view(known + rest);
        lemma_view_add(known, rest);
        assert(messages_view(rest.push(batch.last())) =~= messages_view(rest).push(batch.last().view()));
    }
}

proof fn lemma_taken_all(items: Seq<RunMessage>, ids: Seq<u128>)
    requires
        forall|i: int| 0 <= i < items.len() ==> ids.contains(#[trigger] items[i].id),
    ensures
        taken(items, ids) == items,
    decreases items.len(),
{
    if items.len() > 0 {
        assert(ids.contains(items[items.len() - 1].id));
        lemma_taken_all(items.drop_last(), ids);
        assert(items.drop_last().push(items.last()) =~= items);
    }
}

proof fn lemma_policy_view(a: Seq<RunMessage>, b: Seq<RunMessage>, pol: TurnContextPolicy)
    requires
        messages_view(a) == messages_view(b),
    ensures
        messages_view(policy_history(a, pol)) == messages_view(policy_history(b, pol)),
{
    assert(a.len() == messages_view(a).len());
    assert(b.len() == messages_view(b).len());
    match pol {
        TurnContextPolicy::FullHistory => {},
        TurnContextPolicy::LatestUserOnly => {},
        TurnContextPolicy::LastMessages(n) => {
            if n < a.len() {
                let x = a.len() - n;
                assert(messages_view(a.subrange(x, a.len() as int)) =~= messages_view(a).subrange(x, a.len() as int));
                assert(messages_view(b.subrange(x, b.len() as int)) =~= messages_view(b).subrange(x, b.len() as int));
            }
        },
    }
}

/// Buffers messages and runs turns over them.
pub struct TurnLoop {
    state: TurnLoopState,
    buffer: Vec<RunMessage>,
    late_items: Vec<RunMessage>,
    messages: Vec<RunMessage>,
    runner: GraphRunner,
    graph: Option<Graph>,
    /// The input generator set; the default one when `None`.
    gen_input: Option<Box<dyn TurnInputGenerator>>,
    prepare_graph: Option<Box<dyn TurnGraphPreparer>>,
    on_turn_events: Option<Box<dyn TurnEventHandler>>,
    context_policy: TurnContextPolicy,
    max_ticks: usize,
    active_turn_id: Option<u128>,
    stop_requested: bool,
}

fn generator_box<G: TurnInputGenerator + 'static>(g: G) -> Box<dyn TurnInputGenerator> {
    Box::new(g)
}

fn preparer_box<P: TurnGraphPreparer + 'static>(p: P) -> Box<dyn TurnGraphPreparer> {
    Box::new(p)
}

fn handler_box<H: TurnEventHandler + 'static>(h: H) -> Box<dyn TurnEventHandler> {
    Box::new(h)
}

proof fn lemma_prefix_of_trans(a: Seq<RunMessage>, b: Seq<RunMessage>, c: Seq<RunMessage>)
    requires
        a.is_prefix_of(b),
        b.len() <= c.len(),
        c.subrange(0, b.len() as int) == b,
    ensures
        a.is_prefix_of(c),
{
    assert(c.subrange(0, a.len() as int) =~= b.subrange(0, a.len() as int));
}

impl TurnLoop {
    pub closed spec fn state_view(&self) -> TurnLoopState {
        self.state
    }

    pub closed spec fn pending_view(&self) -> Seq<RunMessage> {
        self.buffer@
    }

    pub closed spec fn late_view(&self) -> Seq<RunMessage> {
        self.late_items@
    }

    pub closed spec fn messages_seq(&self) -> Seq<RunMessage> {
        self.messages@
    }

    pub closed spec fn stop_view(&self) -> bool {
        self.stop_requested
    }

    pub closed spec fn active_view(&self) -> Option<u128> {
        self.active_turn_id
    }

    pub closed spec fn policy_view(&self) -> TurnContextPolicy {
        self.context_policy
    }

    /// An input generator of the caller's was set.
    pub closed spec fn custom_input_view(&self) -> bool {
        self.gen_input is Some
    }

    /// A graph preparer was set.
    pub closed spec fn preparer_view(&self) -> bool {
        self.prepare_graph is Some
    }

    /// A turn event handler was set.
    pub closed spec fn handler_view(&self) -> bool {
        self.on_turn_events is Some
    }

    /// The graph set, if any.
    pub closed spec fn graph_view(&self) -> Option<GraphV> {
        match self.graph {
            Some(g) => Some(g.view()),
            None => None,
        }
    }

    pub closed spec fn max_ticks_view(&self) -> usize {
        self.max_ticks
    }

    /// Messages are kept once each.
    pub open spec fn wf(&self) -> bool {
        ids_distinct(self.messages_seq())
    }

    /// An idle loop with no graph, the default input and the full history.
    pub fn new() -> (r: TurnLoop)
        ensures
            r.wf(),
            r.state_view() == TurnLoopState::Idle,
            r.pending_view().len() == 0 && r.late_view().len() == 0 && r.messages_seq().len() == 0,
            !r.stop_view() && r.active_view() is None,
            r.policy_view() == TurnContextPolicy::FullHistory,
            r.max_ticks_view() == 10_000,
    {
        TurnLoop::with_runner(GraphRunner::new())
    }

    fn with_runner(runner: GraphRunner) -> (r: TurnLoop)
        ensures
            r.wf(),
            r.state_view() == TurnLoopState::Idle,
            r.pending_view().len() == 0 && r.late_view().len() == 0 && r.messages_seq().len() == 0,
            !r.stop_view() && r.active_view() is None,
            r.policy_view() == TurnContextPolicy::FullHistory,
            r.max_ticks_view() == 10_000,
            r.runner == runner,
    {
        TurnLoop {
            state: TurnLoopState::Idle,
            buffer: Vec::new(),
            late_items: Vec::new(),
            messages: Vec::new(),
            runner,
            graph: None,
            gen_input: None,
            prepare_graph: None,
            on_turn_events: None,
            context_policy: TurnContextPolicy::FullHistory,
            max_ticks: 10_000,
            active_turn_id: None,
            stop_requested: false,
        }
    }

    pub fn with_graph(self, graph: Graph) -> (r: TurnLoop)
        ensures
            r.state_view() == self.state_view() && r.pending_view() == self.pending_view() && r.messages_seq() == self.messages_seq()
                && r.late_view() == self.late_view() && r.stop_view() == self.stop_view() && r.active_view() == self.active_view(),
    {
        let mut t = self;
        t.graph = Some(graph);
        t
    }

    pub fn set_graph(&mut self, graph: Graph)
        ensures
            final(self).state_view() == old(self).state_view() && final(self).pending_view() == old(self).pending_view()
                && final(self).messages_seq() == old(self).messages_seq() && final(self).late_view() == old(self).late_view()
                && final(self).stop_view() == old(self).stop_view() && final(self).active_view() == old(self).active_view(),
    {
        self.graph = Some(graph);
    }

    pub fn with_gen_input<G: TurnInputGenerator + 'static>(self, gen_input: G) -> (r: TurnLoop)
        ensures
            r.state_view() == self.state_view() && r.pending_view() == self.pending_view() && r.messages_seq() == self.messages_seq()
                && r.late_view() == self.late_view() && r.stop_view() == self.stop_view() && r.active_view() == self.active_view(),
    {
        let mut t = self;
        t.gen_input = Some(generator_box(gen_input));
        t
    }

    pub fn with_prepare_graph<P: TurnGraphPreparer + 'static>(self, prepare_graph: P) -> (r: TurnLoop)
        ensures
            r.state_view() == self.state_view() && r.pending_view() == self.pending_view() && r.messages_seq() == self.messages_seq()
                && r.late_view() == self.late_view() && r.stop_view() == self.stop_view() && r.active_view() == self.active_view(),
    {
        let mut t = self;
        t.prepare_graph = Some(preparer_box(prepare_graph));
        t
    }

    pub fn with_on_turn_events<H: TurnEventHandler + 'static>(self, on_turn_events: H) -> (r: TurnLoop)
        ensures
            r.state_view() == self.state_view() && r.pending_view() == self.pending_view() && r.messages_seq() == self.messages_seq()
                && r.late_view() == self.late_view() && r.stop_view() == self.stop_view() && r.active_view() == self.active_view(),
    {
        let mut t = self;
        t.on_turn_events = Some(handler_box(on_turn_events));
        t
    }

    pub fn with_context_policy(self, policy: TurnContextPolicy) -> (r: TurnLoop)
        ensures
            r.policy_view() == policy,
            r.state_view() == self.state_view() && r.pending_view() == self.pending_view() && r.messages_seq() == self.messages_seq(),
    {
        let mut t = self;
        t.context_policy = policy;
        t
    }

    pub fn set_context_policy(&mut self, policy: TurnContextPolicy)
        ensures
            final(self).policy_view() == policy,
            final(self).messages_seq() == old(self).messages_seq() && final(self).pending_view() == old(self).pending_view(),
    {
        self.context_policy = policy;
    }

    pub fn context_policy(&self) -> (r: TurnContextPolicy)
        ensures
            r == self.policy_view(),
    {
        self.context_policy
    }

    pub fn with_max_ticks(self, max_ticks: usize) -> (r: TurnLoop)
        ensures
            r.max_ticks_view() == max_ticks,
            r.state_view() == self.state_view() && r.pending_view() == self.pending_view() && r.messages_seq() == self.messages_seq(),
    {
        let mut t = self;
        t.max_ticks = max_ticks;
        t
    }

    pub fn set_max_ticks(&mut self, max_ticks: usize)
        ensures
            final(self).max_ticks_view() == max_ticks,
            final(self).messages_seq() == old(self).messages_seq() && final(self).pending_view() == old(self).pending_view(),
    {
        self.max_ticks = max_ticks;
    }

    pub fn state(&self) -> (r: TurnLoopState)
        ensures
            r == self.state_view(),
    {
        self.state
    }

    pub fn pending_len(&self) -> (r: usize)
        ensures
            r == self.pending_view().len(),
    {
        self.buffer.len()
    }

    pub fn messages(&self) -> (r: &Vec<RunMessage>)
        ensures
            r@ == self.messages_seq(),
    {
        &self.messages
    }

    pub fn late_items(&self) -> (r: &Vec<RunMessage>)
        ensures
            r@ == self.late_view(),
    {
        &self.late_items
    }

    /// The items set aside after a stop, leaving none.
    pub fn take_late_items(&mut self) -> (r: Vec<RunMessage>)
        ensures
            r@ == old(self).late_view(),
            final(self).late_view().len() == 0,
            final(self).messages_seq() == old(self).messages_seq() && final(self).pending_view() == old(self).pending_view()
                && final(self).state_view() == old(self).state_view() && final(self).stop_view() == old(self).stop_view()
                && final(self).active_view() == old(self).active_view(),
    {
        let mut taken_items: Vec<RunMessage> = Vec::new();
        std::mem::swap(&mut taken_items, &mut self.late_items);
        taken_items
    }

    /// Adds messages to the conversation, each id once; gives how many were new.
    pub fn append_messages(&mut self, messages: Vec<RunMessage>) -> (r: AgentCoreResult<usize>)
        requires
            old(self).wf(),
        ensures
            final(self).wf(),
            final(self).messages_seq() == old(self).messages_seq() + new_messages(old(self).messages_seq(), messages@),
            r matches Ok(n) && n == new_messages(old(self).messages_seq(), messages@).len(),
            final(self).pending_view() == old(self).pending_view() && final(self).state_view() == old(self).state_view(),
    {
        let ghost before = self.messages_seq();
        let ghost batch = messages@;
        let added = self.append_new_messages(messages);
        proof {
            assert(messages_view(added@).len() == messages_view(new_messages(before, batch)).len());
        }
        Ok(added.len())
    }

    fn append_new_messages(&mut self, messages: Vec<RunMessage>) -> (r: Vec<RunMessage>)
        requires
            old(self).wf(),
        ensures
            final(self).wf(),
            messages_view(r@) == messages_view(new_messages(old(self).messages_seq(), messages@)),
            final(self).messages_seq() == old(self).messages_seq() + new_messages(old(self).messages_seq(), messages@),
            final(self).pending_view() == old(self).pending_view() && final(self).state_view() == old(self).state_view()
                && final(self).late_view() == old(self).late_view() && final(self).stop_view() == old(self).stop_view()
                && final(self).active_view() == old(self).active_view() && final(self).graph == old(self).graph
                && final(self).policy_view() == old(self).policy_view() && final(self).max_ticks_view() == old(self).max_ticks_view(),
            (final(self).prepare_graph is None) == (old(self).prepare_graph is None),
            (final(self).on_turn_events is None) == (old(self).on_turn_events is None),
    {
        let ghost known = self.messages@;
        let ghost batch = messages@;
        let mut appended: Vec<RunMessage> = Vec::new();
        let mut rest = messages;
        let mut i: usize = 0;
        let n = rest.len();
        proof {
            assert(batch.subrange(0, 0) =~= Seq::<RunMessage>::empty());
            assert(known + new_messages(known, batch.subrange(0, 0)) =~= known);
            assert(messages_view(appended@) =~= Seq::empty());
        }
        while rest.len() > 0
            invariant
                i <= batch.len(),
                batch.len() == n,
                rest@ == batch.subrange(i as int, batch.len() as int),
                messages_view(appended@) == messages_view(new_messages(known, batch.subrange(0, i as int))),
                self.messages@ == known + new_messages(known, batch.subrange(0, i as int)),
                ids_distinct(self.messages@),
                self.buffer == old(self).buffer && self.state == old(self).state && self.late_items == old(self).late_items
                    && self.stop_requested == old(self).stop_requested && self.active_turn_id == old(self).active_turn_id
                    && self.graph == old(self).graph && self.context_policy == old(self).context_policy
                    && self.max_ticks == old(self).max_ticks
                    && (self.prepare_graph is None) == (old(self).prepare_graph is None)
                    && (self.on_turn_events is None) == (old(self).on_turn_events is None),
            decreases rest@.len(),
        {
            let message = rest.remove(0);
            proof {
                assert(message == batch[i as int]);
                assert(rest@ =~= batch.subrange(i + 1, batch.len() as int));
                assert(batch.subrange(0, i + 1).drop_last() =~= batch.subrange(0, i as int));
                assert(batch.subrange(0, i + 1).last() == message);
                assert(ids_of(known + new_messages(known, batch.subrange(0, i as int))) =~= ids_of(self.messages@));
                assert(new_messages(known, batch.subrange(0, i + 1)) == if ids_of(known + new_messages(known, batch.subrange(0, i as int))).contains(message.id) {
                    new_messages(known, batch.subrange(0, i as int))
                } else {
                    new_messages(known, batch.subrange(0, i as int)).push(message)
                });

            }
            if !contains_id(&self.messages, message.id) {
                let copy = message.dup();
                let ghost m0 = self.messages@;
                let ghost a0 = messages_view(appended@);
                let ghost mv = message;
                self.messages.push(message);
                appended.push(copy);
                proof {
                    assert forall|a: int, b: int| 0 <= a < b < self.messages@.len() implies (#[trigger] self.messages@[a]).id != (#[trigger] self.messages@[b]).id by {
                        if b == m0.len() {
                            assert(ids_of(m0)[a] == m0[a].id);
                        }
                    }
                    assert(new_messages(known, batch.subrange(0, i + 1)) == new_messages(known, batch.subrange(0, i as int)).push(mv));
                    assert(self.messages@ =~= known + new_messages(known, batch.subrange(0, i + 1)));
                    assert(messages_view(appended@) =~= a0.push(mv.view()));
                    assert(messages_view(new_messages(known, batch.subrange(0, i + 1))) =~= messages_view(new_messages(known, batch.subrange(0, i as int))).push(mv.view()));
                }
            }
            i += 1;
        }
        proof {
            assert(batch.subrange(0, i as int) =~= batch);
        }
        appended
    }

    /// Queues an item for a later turn; streaming items are refused, and after a stop the
    /// item is set aside (and `false` returned).
    pub fn push(&mut self, item: RunMessage) -> (r: AgentCoreResult<bool>)
        ensures
            item.status == MessageStatus::Streaming ==> (r matches Err(AgentCoreError::InvalidInput(t))
                && t@ == "turn loop only accepts finalized or aborted messages"@
                && final(self).pending_view() == old(self).pending_view() && final(self).late_view() == old(self).late_view()),
            item.status != MessageStatus::Streaming && (old(self).stop_view() || old(self).state_view() == TurnLoopState::Stopped)
                ==> (r matches Ok(false) && final(self).late_view() == old(self).late_view().push(item)
                && final(self).pending_view() == old(self).pending_view()),
            item.status != MessageStatus::Streaming && !(old(self).stop_view() || old(self).state_view() == TurnLoopState::Stopped)
                ==> (r matches Ok(true) && final(self).pending_view() == old(self).pending_view().push(item)
                && final(self).late_view() == old(self).late_view()),
            final(self).messages_seq() == old(self).messages_seq() && final(self).state_view() == old(self).state_view()
                && final(self).stop_view() == old(self).stop_view() && final(self).active_view() == old(self).active_view(),
    {
        if item.status == MessageStatus::Streaming {
            return Err(AgentCoreError::InvalidInput(owned("turn loop only accepts finalized or aborted messages")));
        }
        if self.stop_requested || self.state == TurnLoopState::Stopped {
            self.late_items.push(item);
            return Ok(false);
        }
        self.buffer.push(item);
        Ok(true)
    }

    /// Asks the loop to stop: at once when no turn runs, otherwise when it ends.
    pub fn request_stop(&mut self)
        ensures
            final(self).stop_view(),
            final(self).state_view() == if old(self).active_view() is Some { TurnLoopState::Stopping } else { TurnLoopState::Stopped },
            final(self).messages_seq() == old(self).messages_seq() && final(self).pending_view() == old(self).pending_view()
                && final(self).late_view() == old(self).late_view() && final(self).active_view() == old(self).active_view(),
    {
        self.stop_requested = true;
        self.state = if self.active_turn_id.is_some() {
            TurnLoopState::Stopping
        } else {
            TurnLoopState::Stopped
        };
    }

    /// Withdraws a stop request; an idle loop becomes idle again.
    pub fn clear_stop(&mut self)
        ensures
            !final(self).stop_view(),
            old(self).active_view() is None ==> final(self).state_view() == TurnLoopState::Idle,
            old(self).active_view() is Some ==> final(self).state_view() == old(self).state_view(),
            final(self).messages_seq() == old(self).messages_seq() && final(self).pending_view() == old(self).pending_view()
                && final(self).late_view() == old(self).late_view() && final(self).active_view() == old(self).active_view(),
    {
        self.stop_requested = false;
        if self.active_turn_id.is_none() {
            self.state = TurnLoopState::Idle;
        }
    }

    pub fn stop_requested(&self) -> (r: bool)
        ensures
            r == self.stop_view(),
    {
        self.stop_requested
    }

    fn finish_active_turn(&mut self)
        ensures
            final(self).active_view() is None,
            final(self).state_view() == if old(self).stop_view() { TurnLoopState::Stopped } else { TurnLoopState::Idle },
            final(self).messages_seq() == old(self).messages_seq() && final(self).pending_view() == old(self).pending_view()
                && final(self).late_view() == old(self).late_view() && final(self).stop_view() == old(self).stop_view()
                && final(self).graph == old(self).graph,
    {
        self.active_turn_id = None;
        self.state = if self.stop_requested {
            TurnLoopState::Stopped
        } else {
            TurnLoopState::Idle
        };
    }

    /// What the input generator is handed: the waiting items, the conversation and the
    /// context policy.
    pub fn generator_input(&self) -> (r: TurnGenInput)
        ensures
            messages_view(r.pending_items@) == messages_view(self.pending_view()),
            messages_view(r.history@) == messages_view(self.messages_seq()),
            r.context_policy == self.policy_view(),
    {
        TurnGenInput {
            pending_items: dup_messages(&self.buffer),
            history: dup_messages(&self.messages),
            context_policy: self.context_policy,
        }
    }

    /// Runs one turn. A stopped (or stopping) loop becomes stopped and runs none; a loop with
    /// a turn running refuses; an empty buffer leaves the loop idle. Otherwise the input
    /// generator chooses the context and the items taken (an unknown id refuses the turn),
    /// the items left wait, the taken items join the conversation, the graph runs over the
    /// context, and the messages it emitted that were not in the context join the
    /// conversation. Whatever happens, no turn is left running afterwards.
    pub fn run_once(&mut self) -> (r: AgentCoreResult<Option<TurnRunResult>>)
        requires
            old(self).wf(),
        ensures
            final(self).wf(),
            (old(self).stop_view() || old(self).state_view() == TurnLoopState::Stopping || old(self).state_view() == TurnLoopState::Stopped)
                ==> (r matches Ok(None) && final(self).state_view() == TurnLoopState::Stopped
                && final(self).pending_view() == old(self).pending_view() && final(self).messages_seq() == old(self).messages_seq()),
            !(old(self).stop_view() || old(self).state_view() == TurnLoopState::Stopping || old(self).state_view() == TurnLoopState::Stopped)
                && old(self).active_view() is Some ==> (r matches Err(AgentCoreError::InvalidInput(_))
                && final(self).messages_seq() == old(self).messages_seq()),
            !(old(self).stop_view() || old(self).state_view() == TurnLoopState::Stopping || old(self).state_view() == TurnLoopState::Stopped)
                && old(self).active_view() is None && old(self).pending_view().len() == 0 ==> (r matches Ok(None)
                && final(self).state_view() == TurnLoopState::Idle && final(self).messages_seq() == old(self).messages_seq()),
            old(self).active_view() is None ==> final(self).active_view() is None,
            old(self).messages_seq().len() <= final(self).messages_seq().len(),
            final(self).messages_seq().subrange(0, old(self).messages_seq().len() as int) == old(self).messages_seq(),
            ({
                let normal = !(old(self).stop_view() || old(self).state_view() == TurnLoopState::Stopping
                    || old(self).state_view() == TurnLoopState::Stopped) && old(self).active_view() is None
                    && old(self).pending_view().len() > 0 && !old(self).custom_input_view() && !old(self).preparer_view();
                let h = old(self).messages_seq();
                let p = old(self).pending_view();
                &&& normal && old(self).graph_view() is None ==> (r matches Err(AgentCoreError::InvalidConfig(t))
                    && t@ == "turn loop has no graph; call with_graph, set_graph, or with_prepare_graph"@
                    && final(self).pending_view().len() == 0
                    && messages_view(final(self).messages_seq()) == messages_view(h) + new_messages_v(messages_view(h), messages_view(p)))
                &&& normal && old(self).graph_view() is Some ==> (r matches Ok(Some(t)) ==> final(self).pending_view().len() == 0
                    && plain_turn(h, p, old(self).policy_view(), old(self).graph_view()->0, t, final(self).messages_seq()))
                &&& normal && !old(self).handler_view() && (old(self).graph_view() matches Some(g) && no_agent_nodes(g))
                    ==> r matches Ok(Some(_))
            }),
    {
        if self.stop_requested || self.state == TurnLoopState::Stopping || self.state == TurnLoopState::Stopped {
            self.state = TurnLoopState::Stopped;
            proof {
                assert(self.messages@.subrange(0, self.messages@.len() as int) =~= self.messages@);
            }
            return Ok(None);
        }
        if self.active_turn_id.is_some() {
            proof {
                assert(self.messages@.subrange(0, self.messages@.len() as int) =~= self.messages@);
            }
            return Err(AgentCoreError::InvalidInput(owned("cannot start a new turn while another turn is running")));
        }
        if self.buffer.len() == 0 {
            self.state = TurnLoopState::Idle;
            proof {
                assert(self.messages@.subrange(0, self.messages@.len() as int) =~= self.messages@);
            }
            return Ok(None);
        }
        let ghost m0 = self.messages@;
        proof {
            assert(m0.subrange(0, m0.len() as int) =~= m0);
        }
        let turn_id = new_id();
        self.active_turn_id = Some(turn_id);
        self.state = TurnLoopState::Running;
        let pending_items = dup_messages(&self.buffer);
        let gen_in = self.generator_input();
        let ghost plain = self.gen_input is None && self.prepare_graph is None;
        let ghost h = m0;
        let ghost p = self.buffer@;
        let ghost gin_p = gen_in.pending_items@;
        let ghost gin_h = gen_in.history@;
        let generated = match &self.gen_input {
            Some(g) => g.generate(gen_in),
            None => Ok(default_gen_input(gen_in)),
        };
        proof {
            if plain {
                lemma_policy_view(gin_h, h, self.context_policy);
                lemma_view_add(policy_history(gin_h, self.context_policy), gin_p);
                lemma_view_add(policy_history(h, self.context_policy), p);
            }
        }
        let generated = match generated {
            Ok(g) => g,
            Err(e) => {
                self.finish_active_turn();
                return Err(e);
            },
        };
        proof {
            if plain {
                lemma_ids_view(gin_p);
                lemma_ids_view(pending_items@);
                assert(ids_of(pending_items@) == ids_of(gin_p));
                assert forall|k: int| 0 <= k < generated.consumed@.len() implies ids_of(pending_items@).contains(#[trigger] generated.consumed@[k]) by {
                    assert(ids_of(pending_items@)[k] == generated.consumed@[k]);
                }
                assert forall|i: int| 0 <= i < pending_items@.len() implies generated.consumed@.contains(#[trigger] pending_items@[i].id) by {
                    assert(generated.consumed@[i] == pending_items@[i].id);
                }
                lemma_taken_all(pending_items@, generated.consumed@);
            }
        }
        let consumed = match consumed_items(&pending_items, &generated.consumed) {
            Ok(c) => c,
            Err(e) => {
                self.finish_active_turn();
                return Err(e);
            },
        };
        self.buffer = dup_messages(&generated.remaining);
        proof {
            assert(self.buffer@.len() == messages_view(self.buffer@).len());
            assert(generated.remaining@.len() == messages_view(generated.remaining@).len());
            if plain {
                assert(messages_view(generated.input_messages@).len() > 0);
                assert(consumed@.len() == messages_view(consumed@).len());
                assert(messages_view(pending_items@).len() > 0);
            }
        }
        if generated.input_messages.len() == 0 || consumed.len() == 0 {
            self.finish_active_turn();
            return Ok(None);
        }
        proof {
            if plain {
                assert(messages_view(generated.input_messages@).len() > 0);
                assert(consumed@.len() == messages_view(consumed@).len());
            }
        }
        let dc = dup_messages(&consumed);
        let ghost dcv = dc@;
        self.append_new_messages(dc);
        let ghost m_taken = self.messages@;
        proof {
            lemma_new_messages_view(h, dcv);
            lemma_view_add(h, new_messages(h, dcv));
        }
        let input = GraphRunInput { run_id: None, initial_messages: dup_messages(&generated.input_messages), stop_requested: false };
        let graph_result = match &self.prepare_graph {
            Some(preparer) => {
                let prepared = preparer.prepare(TurnPrepareGraphInput {
                    turn_id,
                    consumed: dup_messages(&consumed),
                    input_messages: dup_messages(&generated.input_messages),
                    history: dup_messages(&self.messages),
                });
                match prepared {
                    Ok(graph) => self.runner.run(&graph, input),
                    Err(e) => {
                        self.finish_active_turn();
                        return Err(e);
                    },
                }
            },
            None => match &self.graph {
                Some(graph) => self.runner.run(graph, input),
                None => {
                    self.finish_active_turn();
                    return Err(AgentCoreError::InvalidConfig(
                        owned("turn loop has no graph; call with_graph, set_graph, or with_prepare_graph"),
                    ));
                },
            },
        };
        let graph = match graph_result {
            Ok(g) => g,
            Err(e) => {
                self.finish_active_turn();
                return Err(e);
            },
        };
        let mut emitted: Vec<RunMessage> = Vec::new();
        let mut i: usize = 0;
        let ghost gm = messages_view(graph.messages@);
        let ghost ctx_ids = ids_v(messages_view(generated.input_messages@));
        proof {
            lemma_ids_view(generated.input_messages@);
            assert(gm.subrange(0, 0) =~= Seq::<MessageV>::empty());
            assert(messages_view(emitted@) =~= Seq::<MessageV>::empty());
        }
        while i < graph.messages.len()
            invariant
                i <= graph.messages@.len(),
                gm == messages_view(graph.messages@),
                ctx_ids == ids_of(generated.input_messages@),
                messages_view(emitted@) == outside_context(gm.subrange(0, i as int), ctx_ids),
            decreases graph.messages.len() - i,
        {
            proof {
                assert(gm.subrange(0, i + 1).drop_last() =~= gm.subrange(0, i as int));
            }
            let ghost e0 = emitted@;
            if !contains_id(&generated.input_messages, graph.messages[i].id) {
                emitted.push(graph.messages[i].dup());
                proof {
                    assert(messages_view(emitted@) =~= messages_view(e0).push(gm[i as int]));
                }
            }
            i += 1;
        }
        proof {
            assert(gm.subrange(0, gm.len() as int) =~= gm);
        }
        let ghost ev = emitted@;
        let ghost m1 = self.messages@;
        let appended_messages = self.append_new_messages(emitted);
        proof {
            lemma_new_messages_view(m1, ev);
            lemma_view_add(m1, new_messages(m1, ev));
        }
        proof {
            assert(self.messages@.subrange(0, m0.len() as int) =~= m0) by {
                assert(m1.subrange(0, m0.len() as int) == m0);
                assert(self.messages@.subrange(0, m1.len() as int) =~= m1);
            }
        }
        match &self.on_turn_events {
            Some(handler) => {
                let batch = TurnEventBatch { turn_id, events: graph.events.clone(), appended_messages: dup_messages(&appended_messages) };
                match handler.handle(batch) {
                    Ok(()) => {},
                    Err(e) => {
                        self.finish_active_turn();
                        return Err(e);
                    },
                }
            },
            None => {},
        }
        self.finish_active_turn();
        Ok(Some(TurnRunResult {
            turn_id,
            consumed,
            remaining: generated.remaining,
            context_messages: generated.input_messages,
            appended_messages,
            graph,
        }))
    }

    /// Runs turns while items wait and turns run. With nothing waiting it runs none; a loop
    /// that is stopped (or stopping) becomes stopped and runs none; a loop with a turn running
    /// refuses. The conversation only grows.
    pub fn run_pending(&mut self) -> (r: AgentCoreResult<Vec<TurnRunResult>>)
        requires
            old(self).wf(),
        ensures
            final(self).wf(),
            old(self).pending_view().len() == 0 ==> (r matches Ok(v) && v@.len() == 0
                && final(self).messages_seq() == old(self).messages_seq()),
            old(self).pending_view().len() > 0
                && (old(self).stop_view() || old(self).state_view() == TurnLoopState::Stopping || old(self).state_view() == TurnLoopState::Stopped)
                ==> (r matches Ok(v) && v@.len() == 0 && final(self).state_view() == TurnLoopState::Stopped
                && final(self).pending_view() == old(self).pending_view() && final(self).messages_seq() == old(self).messages_seq()),
            old(self).pending_view().len() > 0
                && !(old(self).stop_view() || old(self).state_view() == TurnLoopState::Stopping || old(self).state_view() == TurnLoopState::Stopped)
                && old(self).active_view() is Some ==> (r matches Err(AgentCoreError::InvalidInput(_))
                && final(self).messages_seq() == old(self).messages_seq()),
            old(self).active_view() is None ==> final(self).active_view() is None,
            old(self).messages_seq().is_prefix_of(final(self).messages_seq()),
    {
        let mut turns: Vec<TurnRunResult> = Vec::new();
        let mut count: usize = 0;
        let ghost m0 = self.messages@;
        while self.buffer.len() > 0 && count < usize::MAX
            invariant_except_break
                self.wf(),
                count == turns@.len(),
                m0 == old(self).messages_seq(),
                m0.is_prefix_of(self.messages_seq()),
                old(self).active_view() is None ==> self.active_view() is None,
                count == 0 ==> *self == *old(self),
                count > 0 ==> old(self).pending_view().len() > 0 && !(old(self).stop_view() || old(self).state_view() == TurnLoopState::Stopping
                    || old(self).state_view() == TurnLoopState::Stopped) && old(self).active_view() is None,
            ensures
                self.wf(),
                !(old(self).pending_view().len() > 0 && !(old(self).stop_view() || old(self).state_view() == TurnLoopState::Stopping
                    || old(self).state_view() == TurnLoopState::Stopped) && old(self).active_view() is Some),
                m0.is_prefix_of(self.messages_seq()),
                old(self).active_view() is None ==> self.active_view() is None,
                old(self).pending_view().len() == 0 ==> (turns@.len() == 0 && self.messages_seq() == old(self).messages_seq()),
                old(self).pending_view().len() > 0
                    && (old(self).stop_view() || old(self).state_view() == TurnLoopState::Stopping || old(self).state_view() == TurnLoopState::Stopped)
                    ==> (turns@.len() == 0 && self.state_view() == TurnLoopState::Stopped
                    && self.pending_view() == old(self).pending_view() && self.messages_seq() == old(self).messages_seq()),
            decreases usize::MAX - count,
        {
            let ghost before = *self;
            count += 1;
            match self.run_once() {
                Ok(Some(turn)) => {
                    proof {
                        lemma_prefix_of_trans(m0, before.messages_seq(), self.messages_seq());
                    }
                    turns.push(turn);
                },
                Ok(None) => {
                    proof {
                        lemma_prefix_of_trans(m0, before.messages_seq(), self.messages_seq());
                    }
                    break;
                },
                Err(e) => {
                    proof {
                        lemma_prefix_of_trans(m0, before.messages_seq(), self.messages_seq());
                    }
                    return Err(e);
                },
            }
        }
        Ok(turns)
    }

    /// Queues a user message and runs one turn for it.
    pub fn run_message(&mut self, message: RunMessage) -> (r: AgentCoreResult<TurnRunResult>)
        requires
            old(self).wf(),
        ensures
            final(self).wf(),
            message.role != MessageRole::User ==> (r matches Err(AgentCoreError::InvalidInput(t))
                && t@ == "turn loop run_message only accepts role=user messages"@),
            message.role == MessageRole::User && message.status == MessageStatus::Streaming ==> (r matches Err(AgentCoreError::InvalidInput(t))
                && t@ == "turn loop only accepts finalized or aborted messages"@),
            message.role == MessageRole::User && message.status != MessageStatus::Streaming
                && (old(self).stop_view() || old(self).state_view() == TurnLoopState::Stopped) ==> (r matches Err(AgentCoreError::InvalidInput(t))
                && t@ == "cannot run a message while turn loop is stopped"@ && final(self).late_view() == old(self).late_view().push(message)
                && final(self).pending_view() == old(self).pending_view()),
            message.role == MessageRole::User && message.status != MessageStatus::Streaming
                && !(old(self).stop_view() || old(self).state_view() == TurnLoopState::Stopped)
                && (old(self).state_view() == TurnLoopState::Stopping || old(self).active_view() is Some)
                ==> r matches Err(AgentCoreError::InvalidInput(_)),
            old(self).messages_seq().is_prefix_of(final(self).messages_seq()),
    {
        if message.role != MessageRole::User {
            return Err(AgentCoreError::InvalidInput(owned("turn loop run_message only accepts role=user messages")));
        }
        match self.push(message) {
            Ok(true) => {},
            Ok(false) => {
                return Err(AgentCoreError::InvalidInput(owned("cannot run a message while turn loop is stopped")));
            },
            Err(e) => {
                return Err(e);
            },
        }
        let ghost before = *self;
        let r = self.run_once();
        proof {
            lemma_prefix_of_trans(old(self).messages_seq(), before.messages_seq(), self.messages_seq());
        }
        match r {
            Ok(Some(turn)) => Ok(turn),
            Ok(None) => Err(AgentCoreError::InvalidInput(owned("pushed message did not produce a turn"))),
            Err(e) => Err(e),
        }
    }
}

} // verus!
