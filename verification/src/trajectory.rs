//! Counts over past sessions: which event follows which, and in how many sessions each tool
//! was called. The counts rank the likely next events and mark the tools hot enough to be
//! offered directly or run ahead of time.

use vstd::prelude::*;
use crate::assoc::{assoc_find, assoc_get, assoc_set, assoc_sorted, pairs_view};
use crate::definition::{AgentDefinition, ToolVisibility};
use crate::error::{AgentCoreError, AgentCoreResult};
use crate::message::{messages_view, opt_view, BlockV, ContentBlock, MessageRole, MessageV, RunMessage};
use crate::session::ReplaySnapshot;
use crate::text::{lemma_seq_lt_irrefl, lemma_seq_lt_total, lemma_seq_lt_trans, owned, seq_lt, str_eq, str_lt, views_of};
use crate::tool::ToolResult;
use crate::tool_registry::{ToolCall, ToolExecutor, ToolRegistry};

verus! {

/// The event a message's role stands for.
pub open spec fn role_event(role: MessageRole) -> Seq<char> {
    match role {
        MessageRole::User => "message:user"@,
        MessageRole::Assistant => "message:assistant"@,
        MessageRole::Tool => "message:tool"@,
        MessageRole::Diagnostic => "message:diagnostic"@,
    }
}

/// The prefix of a tool call event.
pub open spec fn call_prefix() -> Seq<char> {
    "tool_call:"@
}

/// The events of a content block: a tool call or a tool result; nothing for the others.
pub open spec fn block_events(b: BlockV) -> Seq<Seq<char>> {
    match b {
        BlockV::ToolCall { tool_name, .. } => seq![call_prefix() + tool_name],
        BlockV::ToolResult { tool_name, is_error, .. } => seq![
            "tool_result:"@ + (match tool_name {
                Some(n) => n,
                None => "unknown"@,
            }) + ":"@ + (if is_error { "error"@ } else { "ok"@ }),
        ],
        _ => Seq::empty(),
    }
}

pub open spec fn blocks_events(bs: Seq<BlockV>) -> Seq<Seq<char>>
    decreases bs.len(),
{
    if bs.len() == 0 {
        Seq::empty()
    } else {
        blocks_events(bs.drop_last()) + block_events(bs.last())
    }
}

/// The events of a session: for each message its role, then the events of its blocks.
pub open spec fn message_events(ms: Seq<MessageV>) -> Seq<Seq<char>>
    decreases ms.len(),
{
    if ms.len() == 0 {
        Seq::empty()
    } else {
        message_events(ms.drop_last()) + seq![role_event(ms.last().role)] + blocks_events(ms.last().content)
    }
}

/// How many times `b` directly follows `a` in a session.
pub open spec fn pair_count_in(s: Seq<Seq<char>>, a: Seq<char>, b: Seq<char>) -> nat
    decreases s.len(),
{
    if s.len() < 2 {
        0
    } else {
        pair_count_in(s.drop_last(), a, b) + (if s[s.len() - 2] == a && s.last() == b { 1nat } else { 0nat })
    }
}

/// How many times some event directly follows `a` in a session.
pub open spec fn out_count_in(s: Seq<Seq<char>>, a: Seq<char>) -> nat
    decreases s.len(),
{
    if s.len() < 2 {
        0
    } else {
        out_count_in(s.drop_last(), a) + (if s[s.len() - 2] == a { 1nat } else { 0nat })
    }
}

/// How many times `b` directly follows `a`, over all sessions.
pub open spec fn transition_count(sessions: Seq<Seq<Seq<char>>>, a: Seq<char>, b: Seq<char>) -> nat
    decreases sessions.len(),
{
    if sessions.len() == 0 {
        0
    } else {
        transition_count(sessions.drop_last(), a, b) + pair_count_in(sessions.last(), a, b)
    }
}

/// How many times some event directly follows `a`, over all sessions.
pub open spec fn out_total(sessions: Seq<Seq<Seq<char>>>, a: Seq<char>) -> nat
    decreases sessions.len(),
{
    if sessions.len() == 0 {
        0
    } else {
        out_total(sessions.drop_last(), a) + out_count_in(sessions.last(), a)
    }
}

/// In how many sessions `e` occurs.
pub open spec fn sessions_with(sessions: Seq<Seq<Seq<char>>>, e: Seq<char>) -> nat
    decreases sessions.len(),
{
    if sessions.len() == 0 {
        0
    } else {
        sessions_with(sessions.drop_last(), e) + (if sessions.last().contains(e) { 1nat } else { 0nat })
    }
}

/// How many events the sessions hold in all.
pub open spec fn total_events(sessions: Seq<Seq<Seq<char>>>) -> nat
    decreases sessions.len(),
{
    if sessions.len() == 0 {
        0
    } else {
        total_events(sessions.drop_last()) + sessions.last().len()
    }
}

/// `x` ranks before `y`: a higher count, or the same count and an earlier event.
pub open spec fn ranks_before(x: (Seq<char>, nat), y: (Seq<char>, nat)) -> bool {
    x.1 > y.1 || (x.1 == y.1 && seq_lt(x.0, y.0))
}


fn role_event_text(role: MessageRole) -> (r: String)
    ensures
        r@ == role_event(role),
        role == MessageRole::User ==> r@ == "message:user"@,
        role == MessageRole::Assistant ==> r@ == "message:assistant"@,
        role == MessageRole::Tool ==> r@ == "message:tool"@,
        role == MessageRole::Diagnostic ==> r@ == "message:diagnostic"@,
{
    match role {
        MessageRole::User => owned("message:user"),
        MessageRole::Assistant => owned("message:assistant"),
        MessageRole::Tool => owned("message:tool"),
        MessageRole::Diagnostic => owned("message:diagnostic"),
    }
}

fn push_block_events(out: &mut Vec<String>, block: &ContentBlock)
    ensures
        views_of(final(out)@) == views_of(old(out)@) + block_events(block.view()),
{
    let ghost before = views_of(out@);
    match block {
        ContentBlock::ToolCall { tool_name, .. } => {
            let mut e = owned("tool_call:");
            e.append(tool_name.as_str());
            out.push(e);
        },
        ContentBlock::ToolResult { tool_name, is_error, .. } => {
            let mut e = owned("tool_result:");
            match tool_name {
                Some(n) => e.append(n.as_str()),
                None => e.append("unknown"),
            }
            e.append(":");
            if *is_error {
                e.append("error");
            } else {
                e.append("ok");
            }
            out.push(e);
        },
        _ => {},
    }
    assert(views_of(out@) =~= before + block_events(block.view()));
}

/// The events of a session, in order.
pub fn session_events(messages: &Vec<RunMessage>) -> (r: Vec<String>)
    ensures
        views_of(r@) == message_events(messages_view(messages@)),
{
    let mut out: Vec<String> = Vec::new();
    let mut i: usize = 0;
    while i < messages.len()
        invariant
            i <= messages@.len(),
            views_of(out@) == message_events(messages_view(messages@.subrange(0, i as int))),
        decreases messages.len() - i,
    {
        let m = &messages[i];
        let ghost start = views_of(out@);
        out.push(role_event_text(m.role));
        assert(views_of(out@) =~= start + seq![role_event(m.role)]);
        let ghost head = views_of(out@);
        let mut j: usize = 0;
        while j < m.content.len()
            invariant
                j <= m.content@.len(),
                views_of(out@) == head + blocks_events(crate::message::blocks_view(m.content@.subrange(0, j as int))),
            decreases m.content.len() - j,
        {
            let ghost bs = crate::message::blocks_view(m.content@.subrange(0, j + 1));
            assert(bs.drop_last() =~= crate::message::blocks_view(m.content@.subrange(0, j as int)));
            assert(bs.last() == m.content@[j as int].view());
            push_block_events(&mut out, &m.content[j]);
            assert(views_of(out@) =~= head + blocks_events(bs));
            j += 1;
        }
        proof {
            assert(m.content@.subrange(0, m.content@.len() as int) =~= m.content@);
            let ms = messages_view(messages@.subrange(0, i + 1));
            assert(ms.drop_last() =~= messages_view(messages@.subrange(0, i as int)));
            assert(ms.last() == m.view());
            assert(views_of(out@) =~= message_events(ms));
        }
        i += 1;
    }
    assert(messages@.subrange(0, messages@.len() as int) =~= messages@);
    out
}

/// The tool named by a tool call event: what follows the prefix, when the event has it.
fn strip_call_prefix(e: &str) -> (r: Option<String>)
    ensures
        r is Some <==> (e@.len() >= call_prefix().len() && e@.subrange(0, call_prefix().len() as int) == call_prefix()),
        r matches Some(t) ==> e@ == call_prefix() + t@,
{
    let cs = crate::text::chars_of(e);
    let pre = crate::text::chars_of("tool_call:");
    proof {
        reveal_strlit("tool_call:");
    }
    if cs.len() < pre.len() {
        return None;
    }
    let mut i: usize = 0;
    while i < pre.len()
        invariant
            cs@ == e@,
            pre@ == call_prefix(),
            pre@.len() <= cs@.len(),
            i <= pre@.len(),
            forall|k: int| 0 <= k < i ==> cs@[k] == pre@[k],
        decreases pre.len() - i,
    {
        if cs[i] != pre[i] {
            assert(e@.subrange(0, call_prefix().len() as int)[i as int] != call_prefix()[i as int]);
            return None;
        }
        i += 1;
    }
    assert(e@.subrange(0, call_prefix().len() as int) =~= call_prefix());
    let mut t = String::new();
    let mut j: usize = pre.len();
    while j < cs.len()
        invariant
            cs@ == e@,
            pre@ == call_prefix(),
            pre@.len() <= j <= cs@.len(),
            t@ == e@.subrange(pre@.len() as int, j as int),
        decreases cs.len() - j,
    {
        crate::text::push_char(&mut t, cs[j]);
        assert(t@ =~= e@.subrange(pre@.len() as int, j + 1));
        j += 1;
    }
    assert(e@ =~= call_prefix() + t@);
    Some(t)
}

/// One transition seen: how many times `to` directly followed `from`.
#[derive(Debug)]
struct TransitionCounter {
    from: String,
    to: String,
    count: usize,
}

/// The counters hold exactly the nonzero transition counts of the sessions, each pair once.
spec fn transitions_ok(t: Seq<TransitionCounter>, sessions: Seq<Seq<Seq<char>>>) -> bool {
    &&& forall|i: int| #![trigger t[i]] 0 <= i < t.len() ==> t[i].count as nat == transition_count(sessions, t[i].from@, t[i].to@)
        && t[i].count > 0
    &&& forall|a: Seq<char>, b: Seq<char>| #[trigger] transition_count(sessions, a, b) > 0
        ==> exists|i: int| 0 <= i < t.len() && t[i].from@ == a && t[i].to@ == b
    &&& forall|i: int, j: int| 0 <= i < j < t.len() ==> !(t[i].from@ == t[j].from@ && t[i].to@ == t[j].to@)
}

/// The totals hold exactly the nonzero outgoing totals of the sessions.
spec fn totals_ok(o: Seq<(String, usize)>, sessions: Seq<Seq<Seq<char>>>) -> bool {
    &&& assoc_sorted(pairs_view(o))
    &&& forall|a: Seq<char>| #[trigger] assoc_get(pairs_view(o), a) == count_entry(out_total(sessions, a))
}

/// The tool counts hold exactly the nonzero numbers of sessions that called each tool.
spec fn tools_ok(ts: Seq<(String, usize)>, sessions: Seq<Seq<Seq<char>>>) -> bool {
    &&& assoc_sorted(pairs_view(ts))
    &&& forall|t: Seq<char>| #[trigger] assoc_get(pairs_view(ts), t) == count_entry(sessions_with(sessions, call_prefix() + t))
}

/// How a count is kept in a map: absent when zero.
spec fn count_entry(n: nat) -> Option<usize> {
    if n > 0 {
        Some(n as usize)
    } else {
        None
    }
}

/// Every count is bounded by the events (or sessions) they were counted over.
pub open spec fn counts_bounded(sessions: Seq<Seq<Seq<char>>>) -> bool {
    &&& forall|a: Seq<char>| #[trigger] out_total(sessions, a) <= total_events(sessions)
    &&& forall|a: Seq<char>, b: Seq<char>| #[trigger] transition_count(sessions, a, b) <= out_total(sessions, a)
    &&& forall|e: Seq<char>| #[trigger] sessions_with(sessions, e) <= sessions.len()
    &&& total_events(sessions) <= usize::MAX
}

proof fn lemma_counts_empty()
    ensures
        counts_bounded(Seq::empty()),
{
}

/// Extending the last session by one event adds one to the pair it closes and to the total
/// out of the event before it.
proof fn lemma_extend_last(sessions: Seq<Seq<Seq<char>>>, x: Seq<Seq<char>>, e: Seq<char>, a: Seq<char>, b: Seq<char>)
    ensures
        transition_count(sessions.push(x.push(e)), a, b) == transition_count(sessions.push(x), a, b)
            + (if x.len() >= 1 && x.last() == a && e == b { 1nat } else { 0nat }),
        out_total(sessions.push(x.push(e)), a) == out_total(sessions.push(x), a)
            + (if x.len() >= 1 && x.last() == a { 1nat } else { 0nat }),
        total_events(sessions.push(x.push(e))) == total_events(sessions.push(x)) + 1,
        sessions_with(sessions.push(x), a) == sessions_with(sessions, a) + (if x.contains(a) { 1nat } else { 0nat }),
        transition_count(sessions.push(Seq::empty()), a, b) == transition_count(sessions, a, b),
        out_total(sessions.push(Seq::empty()), a) == out_total(sessions, a),
        total_events(sessions.push(Seq::empty())) == total_events(sessions),
{
    assert(sessions.push(x.push(e)).drop_last() =~= sessions);
    assert(sessions.push(x).drop_last() =~= sessions);
    assert(sessions.push(Seq::empty()).drop_last() =~= sessions);
    let y = x.push(e);
    assert(y.drop_last() =~= x);
    if y.len() >= 2 {
        assert(y[y.len() - 2] == x.last());
    }
    assert(pair_count_in(Seq::<Seq<char>>::empty(), a, b) == 0);
}

/// Counts over past sessions.
pub struct TrajectoryProbabilityGraph {
    sessions: Ghost<Seq<Seq<Seq<char>>>>,
    session_count: usize,
    transitions: Vec<TransitionCounter>,
    out_totals: Vec<(String, usize)>,
    tool_sessions: Vec<(String, usize)>,
}

impl TrajectoryProbabilityGraph {
    /// The events of each session observed, in order.
    pub closed spec fn sessions_view(&self) -> Seq<Seq<Seq<char>>> {
        self.sessions@
    }

    /// The counters agree with the sessions observed.
    pub closed spec fn wf(&self) -> bool {
        &&& self.session_count as nat == self.sessions@.len()
        &&& transitions_ok(self.transitions@, self.sessions@)
        &&& totals_ok(self.out_totals@, self.sessions@)
        &&& tools_ok(self.tool_sessions@, self.sessions@)
        &&& counts_bounded(self.sessions@)
    }

    /// A graph that has observed nothing.
    pub fn new() -> (r: TrajectoryProbabilityGraph)
        ensures
            r.wf(),
            r.sessions_view() == Seq::<Seq<Seq<char>>>::empty(),
    {
        let r = TrajectoryProbabilityGraph {
            sessions: Ghost(Seq::empty()),
            session_count: 0,
            transitions: Vec::new(),
            out_totals: Vec::new(),
            tool_sessions: Vec::new(),
        };
        proof {
            assert(pairs_view(r.out_totals@) =~= Seq::empty());
            assert(pairs_view(r.tool_sessions@) =~= Seq::empty());
            lemma_counts_empty();
        }
        r
    }

    /// How many sessions were observed.
    pub fn session_count(&self) -> (r: usize)
        requires
            self.wf(),
        ensures
            r == self.sessions_view().len(),
    {
        self.session_count
    }
}


/// Adds one to the count under `key` (absent counts as zero).
fn bump_count(map: &mut Vec<(String, usize)>, key: &str)
    requires
        assoc_sorted(pairs_view(old(map)@)),
        assoc_get(pairs_view(old(map)@), key@) matches Some(c) ==> c < usize::MAX,
    ensures
        assoc_sorted(pairs_view(final(map)@)),
        forall|x: Seq<char>| #[trigger] assoc_get(pairs_view(final(map)@), x) == (if x == key@ {
            Some((match assoc_get(pairs_view(old(map)@), key@) {
                Some(c) => c + 1,
                None => 1,
            }) as usize)
        } else {
            assoc_get(pairs_view(old(map)@), x)
        }),
{
    let ghost before = pairs_view(map@);
    let next: usize = match assoc_find(map, key) {
        Some(c) => *c + 1,
        None => 1,
    };
    assoc_set(map, key, next);
    proof {
        assert forall|x: Seq<char>| #[trigger] assoc_get(pairs_view(map@), x) == (if x == key@ {
            Some((match assoc_get(before, key@) {
                Some(c) => c + 1,
                None => 1,
            }) as usize)
        } else {
            assoc_get(before, x)
        }) by {
            crate::assoc::lemma_assoc_get_insert(before, key@, next, x);
        }
    }
}

/// Adds one to the transition `(a, b)`: the counters for `s0` become those for `s1`.
fn bump_transition(
    t: &mut Vec<TransitionCounter>,
    a: &String,
    b: &String,
    Ghost(s0): Ghost<Seq<Seq<Seq<char>>>>,
    Ghost(s1): Ghost<Seq<Seq<Seq<char>>>>,
)
    requires
        transitions_ok(old(t)@, s0),
        forall|x: Seq<char>, y: Seq<char>| #[trigger] transition_count(s1, x, y) == transition_count(s0, x, y)
            + (if x == a@ && y == b@ { 1nat } else { 0nat }),
        transition_count(s1, a@, b@) <= usize::MAX,
    ensures
        transitions_ok(final(t)@, s1),
{
    let mut i: usize = 0;
    while i < t.len() && !(str_eq(t[i].from.as_str(), a.as_str()) && str_eq(t[i].to.as_str(), b.as_str()))
        invariant
            i <= t@.len(),
            t@ == old(t)@,
            forall|k: int| 0 <= k < i ==> !(t@[k].from@ == a@ && t@[k].to@ == b@),
        decreases t.len() - i,
    {
        i += 1;
    }
    let ghost t0 = t@;
    if i < t.len() && str_eq(t[i].from.as_str(), a.as_str()) && str_eq(t[i].to.as_str(), b.as_str()) {
        assert(t0[i as int].count as nat == transition_count(s0, a@, b@));
        let c = t[i].count + 1;
        let from = t[i].from.clone();
        let to = t[i].to.clone();
        t.set(i, TransitionCounter { from, to, count: c });
        proof {
            assert forall|k: int| #![trigger t@[k]] 0 <= k < t@.len() implies t@[k].count as nat == transition_count(s1, t@[k].from@, t@[k].to@)
                && t@[k].count > 0 by {
                if k != i {
                    assert(t@[k] == t0[k]);
                    assert(!(t0[k].from@ == a@ && t0[k].to@ == b@)) by {
                        if t0[k].from@ == a@ && t0[k].to@ == b@ {
                            if k < i {
                            } else {
                                assert(!(t0[i as int].from@ == t0[k].from@ && t0[i as int].to@ == t0[k].to@));
                            }
                        }
                    }
                }
            }
            assert forall|x: Seq<char>, y: Seq<char>| #[trigger] transition_count(s1, x, y) > 0
                implies exists|k: int| 0 <= k < t@.len() && t@[k].from@ == x && t@[k].to@ == y by {
                if x == a@ && y == b@ {
                    assert(t@[i as int].from@ == x && t@[i as int].to@ == y);
                } else {
                    assert(transition_count(s0, x, y) > 0);
                    let k = choose|k: int| 0 <= k < t0.len() && t0[k].from@ == x && t0[k].to@ == y;
                    assert(t@[k] == t0[k]);
                }
            }
            assert forall|p: int, q: int| 0 <= p < q < t@.len() implies !(t@[p].from@ == t@[q].from@ && t@[p].to@ == t@[q].to@) by {
                assert(t@[p].from@ == t0[p].from@ && t@[p].to@ == t0[p].to@);
                assert(t@[q].from@ == t0[q].from@ && t@[q].to@ == t0[q].to@);
            }
        }
    } else {
        assert(forall|k: int| 0 <= k < t0.len() ==> !(t0[k].from@ == a@ && t0[k].to@ == b@));
        assert(transition_count(s0, a@, b@) == 0) by {
            if transition_count(s0, a@, b@) > 0 {
                let k = choose|k: int| 0 <= k < t0.len() && t0[k].from@ == a@ && t0[k].to@ == b@;
            }
        }
        t.push(TransitionCounter { from: a.clone(), to: b.clone(), count: 1 });
        proof {
            let n = t0.len() as int;
            assert forall|k: int| #![trigger t@[k]] 0 <= k < t@.len() implies t@[k].count as nat == transition_count(s1, t@[k].from@, t@[k].to@)
                && t@[k].count > 0 by {
                if k < n {
                    assert(t@[k] == t0[k]);
                }
            }
            assert forall|x: Seq<char>, y: Seq<char>| #[trigger] transition_count(s1, x, y) > 0
                implies exists|k: int| 0 <= k < t@.len() && t@[k].from@ == x && t@[k].to@ == y by {
                if x == a@ && y == b@ {
                    assert(t@[n].from@ == x && t@[n].to@ == y);
                } else {
                    assert(transition_count(s0, x, y) > 0);
                    let k = choose|k: int| 0 <= k < t0.len() && t0[k].from@ == x && t0[k].to@ == y;
                    assert(t@[k] == t0[k]);
                }
            }
            assert forall|p: int, q: int| 0 <= p < q < t@.len() implies !(t@[p].from@ == t@[q].from@ && t@[p].to@ == t@[q].to@) by {
                if q == n {
                    assert(t@[p] == t0[p]);
                } else {
                    assert(t@[p] == t0[p]);
                    assert(t@[q] == t0[q]);
                }
            }
        }
    }
}


/// Extending the last session by one event keeps the counts bounded while the events fit.
proof fn lemma_step_bounded(sessions: Seq<Seq<Seq<char>>>, x: Seq<Seq<char>>, e: Seq<char>)
    requires
        counts_bounded(sessions),
        counts_bounded(sessions.push(x)),
        total_events(sessions.push(x)) + 1 <= usize::MAX,
    ensures
        counts_bounded(sessions.push(x.push(e))),
{
    let s1 = sessions.push(x.push(e));
    assert forall|a: Seq<char>| #[trigger] out_total(s1, a) <= total_events(s1) by {
        lemma_extend_last(sessions, x, e, a, a);
    }
    assert forall|a: Seq<char>, b: Seq<char>| #[trigger] transition_count(s1, a, b) <= out_total(s1, a) by {
        lemma_extend_last(sessions, x, e, a, b);
        assert(transition_count(sessions.push(x), a, b) <= out_total(sessions.push(x), a));
    }
    assert forall|f: Seq<char>| #[trigger] sessions_with(s1, f) <= s1.len() by {
        lemma_extend_last(sessions, x.push(e), e, f, f);
        assert(sessions_with(sessions, f) <= sessions.len());
    }
    lemma_extend_last(sessions, x, e, e, e);
}

/// An unchanged session list keeps the counters right.
proof fn lemma_same_counts(t: Seq<TransitionCounter>, o: Seq<(String, usize)>, s0: Seq<Seq<Seq<char>>>, s1: Seq<Seq<Seq<char>>>)
    requires
        transitions_ok(t, s0),
        totals_ok(o, s0),
        forall|a: Seq<char>, b: Seq<char>| #[trigger] transition_count(s1, a, b) == transition_count(s0, a, b),
        forall|a: Seq<char>| #[trigger] out_total(s1, a) == out_total(s0, a),
    ensures
        transitions_ok(t, s1),
        totals_ok(o, s1),
{
    assert forall|a: Seq<char>, b: Seq<char>| #[trigger] transition_count(s1, a, b) > 0
        implies exists|i: int| 0 <= i < t.len() && t[i].from@ == a && t[i].to@ == b by {
        assert(transition_count(s0, a, b) > 0);
    }
    assert forall|a: Seq<char>| #[trigger] assoc_get(pairs_view(o), a) == count_entry(out_total(s1, a)) by {
        assert(assoc_get(pairs_view(o), a) == count_entry(out_total(s0, a)));
    }
}

impl TrajectoryProbabilityGraph {
    /// Counts one more session: its transitions, the totals out of each event, and once per
    /// tool it called.
    pub fn observe_session(&mut self, messages: &Vec<RunMessage>)
        requires
            old(self).wf(),
            old(self).sessions_view().len() < usize::MAX,
            total_events(old(self).sessions_view()) + message_events(messages_view(messages@)).len() <= usize::MAX,
        ensures
            final(self).wf(),
            final(self).sessions_view() == old(self).sessions_view().push(message_events(messages_view(messages@))),
    {
        let events = session_events(messages);
        let ghost s = views_of(events@);
        let ghost base = self.sessions@;
        let ghost nothing: Seq<Seq<char>> = Seq::empty();
        let ghost no_event: Seq<char> = Seq::empty();
        self.session_count = self.session_count + 1;
        proof {
            assert(s.subrange(0, 0) =~= nothing);
            let s0 = base.push(nothing);
            assert forall|a: Seq<char>, b: Seq<char>| #[trigger] transition_count(s0, a, b) == transition_count(base, a, b) by {
                lemma_extend_last(base, nothing, no_event, a, b);
            }
            assert forall|a: Seq<char>| #[trigger] out_total(s0, a) == out_total(base, a) by {
                lemma_extend_last(base, nothing, no_event, a, a);
            }
            assert forall|f: Seq<char>| #[trigger] sessions_with(s0, f) <= s0.len() by {
                lemma_extend_last(base, nothing, no_event, f, f);
            }
            lemma_extend_last(base, nothing, no_event, no_event, no_event);
            lemma_same_counts(self.transitions@, self.out_totals@, base, s0);
        }
        self.sessions = Ghost(base.push(nothing));
        let mut k: usize = 0;
        while k < events.len()
            invariant
                k <= events@.len(),
                s == views_of(events@),
                self.sessions@ == base.push(s.subrange(0, k as int)),
                self.session_count as nat == base.len() + 1,
                transitions_ok(self.transitions@, self.sessions@),
                totals_ok(self.out_totals@, self.sessions@),
                tools_ok(self.tool_sessions@, base),
                counts_bounded(base),
                counts_bounded(self.sessions@),
                total_events(base) + s.len() <= usize::MAX,
                total_events(self.sessions@) == total_events(base) + k,
            decreases events.len() - k,
        {
            let ghost x = s.subrange(0, k as int);
            let ghost e = s[k as int];
            let ghost s0 = self.sessions@;
            let ghost s1 = base.push(x.push(e));
            proof {
                assert(x.push(e) =~= s.subrange(0, k + 1));
                assert forall|a: Seq<char>, b: Seq<char>| #[trigger] transition_count(s1, a, b) == transition_count(s0, a, b)
                    + (if x.len() >= 1 && x.last() == a && e == b { 1nat } else { 0nat }) by {
                    lemma_extend_last(base, x, e, a, b);
                }
                assert forall|a: Seq<char>| #[trigger] out_total(s1, a) == out_total(s0, a)
                    + (if x.len() >= 1 && x.last() == a { 1nat } else { 0nat }) by {
                    lemma_extend_last(base, x, e, a, a);
                }
                lemma_extend_last(base, x, e, e, e);
                lemma_step_bounded(base, x, e);
            }
            if k >= 1 {
                let a = &events[k - 1];
                let b = &events[k];
                proof {
                    assert(x.last() == a@);
                    assert(e == b@);
                    assert(transition_count(s1, a@, b@) <= out_total(s1, a@));
                    assert(out_total(s1, a@) <= total_events(s1));
                    assert(assoc_get(pairs_view(self.out_totals@), a@) == count_entry(out_total(s0, a@)));
                }
                bump_transition(&mut self.transitions, a, b, Ghost(s0), Ghost(s1));
                let ghost o0 = pairs_view(self.out_totals@);
                bump_count(&mut self.out_totals, a.as_str());
                proof {
                    assert forall|y: Seq<char>| #[trigger] assoc_get(pairs_view(self.out_totals@), y) == count_entry(out_total(s1, y)) by {
                        if y == a@ {
                            assert(assoc_get(o0, a@) == count_entry(out_total(s0, a@)));
                        } else {
                            assert(assoc_get(o0, y) == count_entry(out_total(s0, y)));
                        }
                    }
                }
            } else {
                proof {
                    lemma_same_counts(self.transitions@, self.out_totals@, s0, s1);
                }
            }
            self.sessions = Ghost(s1);
            k += 1;
        }
        proof {
            assert(s.subrange(0, s.len() as int) =~= s);
            assert(s.len() == message_events(messages_view(messages@)).len());
        }
        let ghost full = self.sessions@;
        assert(self.session_count as nat == full.len());
        // the tools this session called, each once
        let mut seen: Vec<String> = Vec::new();
        let mut j: usize = 0;
        while j < events.len()
            invariant
                j <= events@.len(),
                s == views_of(events@),
                full == base.push(s),
                tools_ok(self.tool_sessions@, base),
                counts_bounded(base),
                base.len() < usize::MAX,
                self.sessions@ == full,
                self.session_count as nat == full.len(),
                transitions_ok(self.transitions@, full),
                totals_ok(self.out_totals@, full),
                counts_bounded(full),
                forall|t: Seq<char>| #[trigger] crate::assoc::strings_view(seen@).contains(t)
                    <==> s.subrange(0, j as int).contains(call_prefix() + t),
                crate::assoc::strings_view(seen@).no_duplicates(),
            decreases events.len() - j,
        {
            let ghost before = crate::assoc::strings_view(seen@);
            proof {
                assert forall|t: Seq<char>| #[trigger] s.subrange(0, j + 1).contains(call_prefix() + t)
                    <==> (s.subrange(0, j as int).contains(call_prefix() + t) || s[j as int] == call_prefix() + t) by {
                    assert(s.subrange(0, j + 1) =~= s.subrange(0, j as int).push(s[j as int]));
                    lemma_seq_contains_push(s.subrange(0, j as int), s[j as int], call_prefix() + t);
                }
            }
            match strip_call_prefix(events[j].as_str()) {
                Some(t) => {
                    proof {
                        assert forall|u: Seq<char>| s[j as int] == call_prefix() + u <==> u == t@ by {
                            if s[j as int] == call_prefix() + u {
                                assert(u =~= s[j as int].subrange(call_prefix().len() as int, s[j as int].len() as int));
                                assert(t@ =~= s[j as int].subrange(call_prefix().len() as int, s[j as int].len() as int));
                            }
                        }
                    }
                    if !crate::assoc::strings_contain(&seen, t.as_str()) {
                        let ghost tv = t@;
                        seen.push(t);
                        proof {
                            assert(crate::assoc::strings_view(seen@) =~= before.push(tv));
                            assert forall|u: Seq<char>| #[trigger] crate::assoc::strings_view(seen@).contains(u) <==> (before.contains(u) || u == tv) by {
                                lemma_seq_contains_push(before, tv, u);
                            }
                            assert(crate::assoc::strings_view(seen@).no_duplicates()) by {
                                let sv = crate::assoc::strings_view(seen@);
                                assert forall|p: int, q: int| 0 <= p < sv.len() && 0 <= q < sv.len() && p != q implies sv[p] != sv[q] by {
                                    if p == before.len() {
                                        assert(sv[q] == before[q]);
                                    } else if q == before.len() {
                                        assert(sv[p] == before[p]);
                                    } else {
                                        assert(sv[p] == before[p] && sv[q] == before[q]);
                                    }
                                }
                            }
                        }
                    }
                },
                None => {
                    proof {
                        assert forall|u: Seq<char>| s[j as int] != call_prefix() + u by {
                            if s[j as int] == call_prefix() + u {
                                assert(s[j as int].subrange(0, call_prefix().len() as int) =~= call_prefix());
                            }
                        }
                    }
                },
            }
            j += 1;
        }
        // count each of them once
        let ghost sv = crate::assoc::strings_view(seen@);
        let mut i: usize = 0;
        while i < seen.len()
            invariant
                i <= seen@.len(),
                sv == crate::assoc::strings_view(seen@),
                self.sessions@ == full,
                self.session_count as nat == full.len(),
                transitions_ok(self.transitions@, full),
                totals_ok(self.out_totals@, full),
                counts_bounded(full),
                sv.no_duplicates(),
                forall|t: Seq<char>| #[trigger] sv.contains(t) <==> s.contains(call_prefix() + t),
                full == base.push(s),
                counts_bounded(base),
                base.len() < usize::MAX,
                assoc_sorted(pairs_view(self.tool_sessions@)),
                forall|t: Seq<char>| #[trigger] assoc_get(pairs_view(self.tool_sessions@), t) == count_entry(
                    sessions_with(base, call_prefix() + t) + (if sv.subrange(0, i as int).contains(t) { 1nat } else { 0nat }),
                ),
            decreases seen.len() - i,
        {
            let ghost m0 = pairs_view(self.tool_sessions@);
            let ghost ti = sv[i as int];
            proof {
                assert(sessions_with(base, call_prefix() + ti) <= base.len());
                assert(!sv.subrange(0, i as int).contains(ti)) by {
                    if sv.subrange(0, i as int).contains(ti) {
                        let q = choose|q: int| 0 <= q < i && sv.subrange(0, i as int)[q] == ti;
                        assert(sv[q] == sv[i as int]);
                    }
                }
                assert(assoc_get(m0, ti) == count_entry(sessions_with(base, call_prefix() + ti)));
            }
            bump_count(&mut self.tool_sessions, seen[i].as_str());
            proof {
                assert forall|t: Seq<char>| #[trigger] assoc_get(pairs_view(self.tool_sessions@), t) == count_entry(
                    sessions_with(base, call_prefix() + t) + (if sv.subrange(0, i + 1).contains(t) { 1nat } else { 0nat }),
                ) by {
                    assert(sv.subrange(0, i + 1) =~= sv.subrange(0, i as int).push(ti));
                    lemma_seq_contains_push(sv.subrange(0, i as int), ti, t);
                    assert(assoc_get(m0, t) == count_entry(
                        sessions_with(base, call_prefix() + t) + (if sv.subrange(0, i as int).contains(t) { 1nat } else { 0nat }),
                    ));
                }
            }
            i += 1;
        }
        proof {
            assert(sv.subrange(0, sv.len() as int) =~= sv);
            assert forall|t: Seq<char>| #[trigger] assoc_get(pairs_view(self.tool_sessions@), t) == count_entry(sessions_with(full, call_prefix() + t)) by {
                lemma_extend_last(base, s, call_prefix() + t, call_prefix() + t, call_prefix() + t);
            }
        }
    }
}

/// Whether `x` is in `s` with `a` appended.
pub(crate) proof fn lemma_seq_contains_push_pub(s: Seq<Seq<char>>, a: Seq<char>, x: Seq<char>)
    ensures
        s.push(a).contains(x) <==> (s.contains(x) || x == a),
{
    lemma_seq_contains_push(s, a, x);
}

/// Whether `x` is in `s` with `a` appended.
proof fn lemma_seq_contains_push(s: Seq<Seq<char>>, a: Seq<char>, x: Seq<char>)
    ensures
        s.push(a).contains(x) <==> (s.contains(x) || x == a),
{
    if s.push(a).contains(x) {
        let k = choose|k: int| 0 <= k < s.push(a).len() && s.push(a)[k] == x;
        if k < s.len() {
            assert(s[k] == x);
        }
    }
    if s.contains(x) {
        let k = choose|k: int| 0 <= k < s.len() && s[k] == x;
        assert(s.push(a)[k] == x);
    }
    if x == a {
        assert(s.push(a)[s.len() as int] == a);
    }
}


pub(crate) proof fn lemma_rank_trans(x: (Seq<char>, nat), y: (Seq<char>, nat), z: (Seq<char>, nat))
    requires
        ranks_before(x, y),
        ranks_before(y, z),
    ensures
        ranks_before(x, z),
{
    if x.1 == y.1 && y.1 == z.1 {
        lemma_seq_lt_trans(x.0, y.0, z.0);
    }
}

pub(crate) proof fn lemma_rank_total(x: (Seq<char>, nat), y: (Seq<char>, nat))
    requires
        x.0 != y.0,
    ensures
        ranks_before(x, y) || ranks_before(y, x),
{
    lemma_seq_lt_total(x.0, y.0);
}

proof fn lemma_rank_irrefl(x: (Seq<char>, nat))
    ensures
        !ranks_before(x, x),
{
    lemma_seq_lt_irrefl(x.0);
}

/// A next event after a given one: how many times it followed, out of how many transitions
/// out of the given event in all.
#[derive(Debug, Clone, PartialEq)]
pub struct TransitionPrediction {
    pub event: String,
    pub count: usize,
    pub total: usize,
}

pub open spec fn prediction_rank(p: TransitionPrediction) -> (Seq<char>, nat) {
    (p.event@, p.count as nat)
}

spec fn candidate_rank(c: (String, usize)) -> (Seq<char>, nat) {
    (c.0@, c.1 as nat)
}

/// The predictions after `a` over `sessions`: each a nonzero count with the total out of `a`,
/// ranked by count (higher first) then event (earlier first), at most `limit` of them, and
/// no event left out that would rank before one kept.
pub open spec fn predictions_ok(sessions: Seq<Seq<Seq<char>>>, a: Seq<char>, limit: nat, r: Seq<TransitionPrediction>) -> bool {
    &&& r.len() <= limit
    &&& forall|i: int| #![trigger r[i]] 0 <= i < r.len() ==> r[i].count as nat == transition_count(sessions, a, r[i].event@)
        && r[i].count > 0 && r[i].total as nat == out_total(sessions, a)
    &&& forall|i: int, j: int| 0 <= i < j < r.len() ==> ranks_before(prediction_rank(#[trigger] r[i]), prediction_rank(#[trigger] r[j]))
    &&& forall|b: Seq<char>| #[trigger] transition_count(sessions, a, b) > 0 && !(exists|i: int| 0 <= i < r.len() && r[i].event@ == b)
        ==> r.len() == limit && forall|i: int| 0 <= i < r.len() ==> ranks_before(prediction_rank(#[trigger] r[i]), (b, transition_count(sessions, a, b)))
}

/// The candidates after `a`: each with its nonzero count, each event once, none missing.
spec fn candidates_ok(c: Seq<(String, usize)>, sessions: Seq<Seq<Seq<char>>>, a: Seq<char>) -> bool {
    &&& forall|k: int| #![trigger c[k]] 0 <= k < c.len() ==> c[k].1 as nat == transition_count(sessions, a, c[k].0@) && c[k].1 > 0
    &&& forall|p: int, q: int| 0 <= p < q < c.len() ==> c[p].0@ != c[q].0@
    &&& forall|b: Seq<char>| #[trigger] transition_count(sessions, a, b) > 0 ==> exists|k: int| 0 <= k < c.len() && c[k].0@ == b
}

/// The transitions out of `event`, with their counts.
#[verifier::rlimit(40)]
fn outgoing(t: &Vec<TransitionCounter>, event: &str, Ghost(sessions): Ghost<Seq<Seq<Seq<char>>>>) -> (r: Vec<(String, usize)>)
    requires
        transitions_ok(t@, sessions),
    ensures
        candidates_ok(r@, sessions, event@),
{
    let ghost a = event@;
    let mut cand: Vec<(String, usize)> = Vec::new();
    let ghost mut origin: Seq<int> = Seq::empty();
    let mut i: usize = 0;
    while i < t.len()
        invariant
            i <= t@.len(),
            forall|p: int, q: int| 0 <= p < q < t@.len() ==> !(t@[p].from@ == t@[q].from@ && t@[p].to@ == t@[q].to@),
            a == event@,
            origin.len() == cand@.len(),
            forall|k: int| #![trigger origin[k]] 0 <= k < cand@.len() ==> 0 <= origin[k] < i && t@[origin[k]].from@ == a
                && t@[origin[k]].to@ == cand@[k].0@ && t@[origin[k]].count == cand@[k].1,
            forall|p: int, q: int| 0 <= p < q < cand@.len() ==> cand@[p].0@ != cand@[q].0@,
            forall|m: int| 0 <= m < i && #[trigger] t@[m].from@ == a ==> exists|k: int| 0 <= k < cand@.len() && cand@[k].0@ == t@[m].to@,
        decreases t.len() - i,
    {
        if str_eq(t[i].from.as_str(), event) {
            let ghost c0 = cand@;
            proof {
                assert forall|k: int| 0 <= k < c0.len() implies c0[k].0@ != t@[i as int].to@ by {
                    let m = origin[k];
                    assert(c0[k] == cand@[k]);
                    assert(0 <= m < i);
                    assert(!(t@[m].from@ == t@[i as int].from@ && t@[m].to@ == t@[i as int].to@));
                }
            }
            let to = t[i].to.clone();
            assert(to@ == t@[i as int].to@);
            cand.push((to, t[i].count));
            proof {
                let o0 = origin;
                origin = origin.push(i as int);
                let n = c0.len() as int;
                assert forall|k: int| #![trigger origin[k]] 0 <= k < cand@.len() implies 0 <= origin[k] < i + 1 && t@[origin[k]].from@ == a
                    && t@[origin[k]].to@ == cand@[k].0@ && t@[origin[k]].count == cand@[k].1 by {
                    if k < n {
                        assert(cand@[k] == c0[k]);
                        assert(origin[k] == o0[k]);
                        assert(0 <= o0[k] < i && t@[o0[k]].from@ == a && t@[o0[k]].to@ == c0[k].0@ && t@[o0[k]].count == c0[k].1);
                    } else {
                        assert(origin[k] == i);
                    }
                }
                assert forall|p: int, q: int| 0 <= p < q < cand@.len() implies cand@[p].0@ != cand@[q].0@ by {
                    assert(cand@[p] == c0[p]);
                    if q < n {
                        assert(cand@[q] == c0[q]);
                    }
                }
                assert forall|m: int| 0 <= m < i + 1 && #[trigger] t@[m].from@ == a implies exists|k: int| 0 <= k < cand@.len() && cand@[k].0@ == t@[m].to@ by {
                    if m < i {
                        let k = choose|k: int| 0 <= k < c0.len() && c0[k].0@ == t@[m].to@;
                        assert(cand@[k] == c0[k]);
                    } else {
                        assert(cand@[n].0@ == t@[m].to@);
                    }
                }
            }
        }
        i += 1;
    }
    proof {
        assert forall|k: int| #![trigger cand@[k]] 0 <= k < cand@.len() implies cand@[k].1 as nat == transition_count(sessions, a, cand@[k].0@) && cand@[k].1 > 0 by {
            let m = origin[k];
            assert(0 <= m < t@.len());
            let tm = t@[m];
            assert(tm.count as nat == transition_count(sessions, tm.from@, tm.to@));
        }
        assert forall|b: Seq<char>| #[trigger] transition_count(sessions, a, b) > 0 implies exists|k: int| 0 <= k < cand@.len() && cand@[k].0@ == b by {
            let m = choose|m: int| 0 <= m < t@.len() && t@[m].from@ == a && t@[m].to@ == b;
            assert(t@[m].from@ == a);
        }
    }
    cand
}

/// Whether an event has a prediction in `r`.
spec fn has_prediction(r: Seq<TransitionPrediction>, e: Seq<char>) -> bool {
    exists|i: int| 0 <= i < r.len() && r[i].event@ == e
}

/// Every candidate without a prediction ranks after all predictions, and is left out only
/// when `limit` is reached.
spec fn left_out_ranked(cand: Seq<(String, usize)>, r: Seq<TransitionPrediction>, limit: nat) -> bool {
    forall|k: int| 0 <= k < cand.len() && !has_prediction(r, #[trigger] cand[k].0@)
        ==> r.len() == limit && forall|i: int| 0 <= i < r.len() ==> ranks_before(prediction_rank(#[trigger] r[i]), candidate_rank(cand[k]))
}

/// The best-ranked candidates, best first, at most `limit` of them; every candidate left out
/// ranks after all those kept, and is left out only when `limit` is reached.
#[verifier::rlimit(60)]
fn select_top(cand: &Vec<(String, usize)>, limit: usize, total: usize) -> (r: Vec<TransitionPrediction>)
    requires
        forall|p: int, q: int| 0 <= p < q < cand@.len() ==> cand@[p].0@ != cand@[q].0@,
    ensures
        r@.len() <= limit,
        forall|i: int| #![trigger r@[i]] 0 <= i < r@.len() ==> r@[i].total == total && exists|k: int| 0 <= k < cand@.len()
            && cand@[k].0@ == r@[i].event@ && cand@[k].1 == r@[i].count,
        forall|i: int, j: int| 0 <= i < j < r@.len() ==> ranks_before(prediction_rank(#[trigger] r@[i]), prediction_rank(#[trigger] r@[j])),
        left_out_ranked(cand@, r@, limit as nat),
{
    let n = cand.len();
    let mut chosen: Vec<bool> = Vec::new();
    let mut z: usize = 0;
    while z < n
        invariant
            z <= n,
            n == cand@.len(),
            chosen@.len() == z,
            forall|k: int| 0 <= k < z ==> !chosen@[k],
        decreases n - z,
    {
        chosen.push(false);
        z += 1;
    }
    let ghost mut src: Seq<int> = Seq::empty();
    let ghost mut pos: Seq<int> = Seq::new(n as nat, |k: int| 0int);
    let mut r: Vec<TransitionPrediction> = Vec::new();
    let mut done = false;
    while !done && r.len() < limit
        invariant
            n == cand@.len(),
            chosen@.len() == n,
            pos.len() == n,
            src.len() == r@.len(),
            r@.len() <= limit,
            forall|p: int, q: int| 0 <= p < q < cand@.len() ==> cand@[p].0@ != cand@[q].0@,
            forall|i: int| #![trigger r@[i]] 0 <= i < r@.len() ==> r@[i].total == total,
            forall|i: int| #![trigger src[i]] 0 <= i < r@.len() ==> 0 <= src[i] < n,
            forall|i: int| #![trigger src[i]] 0 <= i < r@.len() ==> chosen@[src[i]],
            forall|i: int| #![trigger src[i]] 0 <= i < r@.len() ==> cand@[src[i]].0@ == r@[i].event@ && cand@[src[i]].1 == r@[i].count,
            forall|k: int| 0 <= k < n && #[trigger] chosen@[k] ==> 0 <= pos[k] < r@.len() && r@[pos[k]].event@ == cand@[k].0@,
            forall|i: int, j: int| 0 <= i < j < r@.len() ==> ranks_before(prediction_rank(#[trigger] r@[i]), prediction_rank(#[trigger] r@[j])),
            forall|i: int, k: int| 0 <= i < r@.len() && 0 <= k < n && !chosen@[k]
                ==> ranks_before(prediction_rank(#[trigger] r@[i]), candidate_rank(#[trigger] cand@[k])),
            done ==> forall|k: int| 0 <= k < n ==> #[trigger] chosen@[k],
        decreases limit - r@.len(), if done { 0int } else { 1int },
    {
        let mut best: Option<usize> = None;
        let mut m: usize = 0;
        while m < n
            invariant
                m <= n,
                n == cand@.len(),
                chosen@.len() == n,
                forall|p: int, q: int| 0 <= p < q < cand@.len() ==> cand@[p].0@ != cand@[q].0@,
                best matches Some(bi) ==> bi < m && !chosen@[bi as int]
                    && forall|k: int| 0 <= k < m && !chosen@[k] && k != bi ==> ranks_before(candidate_rank(cand@[bi as int]), candidate_rank(#[trigger] cand@[k])),
                best is None ==> forall|k: int| 0 <= k < m ==> #[trigger] chosen@[k],
            decreases n - m,
        {
            if !chosen[m] {
                match best {
                    None => {
                        best = Some(m);
                    },
                    Some(bi) => {
                        let better = cand[m].1 > cand[bi].1 || (cand[m].1 == cand[bi].1 && str_lt(cand[m].0.as_str(), cand[bi].0.as_str()));
                        if better {
                            proof {
                                assert forall|k: int| 0 <= k < m + 1 && !chosen@[k] && k != m implies ranks_before(candidate_rank(cand@[m as int]), candidate_rank(#[trigger] cand@[k])) by {
                                    if k != bi {
                                        lemma_rank_trans(candidate_rank(cand@[m as int]), candidate_rank(cand@[bi as int]), candidate_rank(cand@[k]));
                                    }
                                }
                            }
                            best = Some(m);
                        } else {
                            proof {
                                assert(cand@[bi as int].0@ != cand@[m as int].0@);
                                lemma_rank_total(candidate_rank(cand@[bi as int]), candidate_rank(cand@[m as int]));
                            }
                        }
                    },
                }
            }
            m += 1;
        }
        match best {
            None => {
                done = true;
            },
            Some(bi) => {
                let ghost r0 = r@;
                let ghost ch0 = chosen@;
                let p = TransitionPrediction { event: cand[bi].0.clone(), count: cand[bi].1, total };
                r.push(p);
                chosen.set(bi, true);
                proof {
                    let q = r0.len() as int;
                    let src0 = src;
                    let pos0 = pos;
                    src = src.push(bi as int);
                    pos = pos.update(bi as int, q);
                    assert(r@[q] == p);
                    assert forall|i: int| #![trigger src[i]] 0 <= i < r@.len() implies r@[i].total == total && 0 <= src[i] < n && chosen@[src[i]]
                        && cand@[src[i]].0@ == r@[i].event@ && cand@[src[i]].1 == r@[i].count by {
                        if i < q {
                            assert(r@[i] == r0[i]);
                            assert(src[i] == src0[i]);
                            let si = src0[i];
                            assert(0 <= si < n && ch0[si] && cand@[si].0@ == r0[i].event@ && cand@[si].1 == r0[i].count);
                            assert(chosen@[si]);
                        } else {
                            assert(src[i] == bi);
                        }
                    }
                    assert forall|k: int| 0 <= k < n && #[trigger] chosen@[k] implies 0 <= pos[k] < r@.len() && r@[pos[k]].event@ == cand@[k].0@ by {
                        if k != bi {
                            assert(ch0[k]);
                            assert(pos[k] == pos0[k]);
                            assert(r@[pos[k]] == r0[pos[k]]);
                        }
                    }
                    assert forall|i: int, j: int| 0 <= i < j < r@.len() implies ranks_before(prediction_rank(#[trigger] r@[i]), prediction_rank(#[trigger] r@[j])) by {
                        assert(r@[i] == r0[i]);
                        if j < q {
                            assert(r@[j] == r0[j]);
                        } else {
                            assert(!ch0[bi as int]);
                            assert(ranks_before(prediction_rank(r0[i]), candidate_rank(cand@[bi as int])));
                        }
                    }
                    assert forall|i: int, k: int| 0 <= i < r@.len() && 0 <= k < n && !chosen@[k]
                        implies ranks_before(prediction_rank(#[trigger] r@[i]), candidate_rank(#[trigger] cand@[k])) by {
                        assert(k != bi);
                        assert(!ch0[k]);
                        if i < q {
                            assert(r@[i] == r0[i]);
                        }
                    }
                }
            },
        }
    }
    proof {
        assert forall|i: int| #![trigger r@[i]] 0 <= i < r@.len() implies r@[i].total == total && exists|k: int| 0 <= k < cand@.len()
            && cand@[k].0@ == r@[i].event@ && cand@[k].1 == r@[i].count by {
            let k = src[i];
            assert(0 <= k < n && cand@[k].0@ == r@[i].event@ && cand@[k].1 == r@[i].count);
        }
        assert(done || r@.len() == limit);
        assert forall|k: int| 0 <= k < cand@.len() && !has_prediction(r@, #[trigger] cand@[k].0@)
            implies r@.len() == limit && forall|i: int| 0 <= i < r@.len() ==> ranks_before(prediction_rank(#[trigger] r@[i]), candidate_rank(cand@[k])) by {
            if chosen@[k] {
                let pk = pos[k];
                assert(0 <= pk < r@.len() && r@[pk].event@ == cand@[k].0@);
                assert(false);
            }
            if done {
                assert(chosen@[k]);
                assert(false);
            }
            assert(!done);
            assert(r@.len() == limit);
            assert forall|i: int| 0 <= i < r@.len() implies ranks_before(prediction_rank(#[trigger] r@[i]), candidate_rank(cand@[k])) by {
                assert(ranks_before(prediction_rank(r@[i]), candidate_rank(cand@[k])));
            }
        }
    }
    r
}

impl TrajectoryProbabilityGraph {
    /// The events seen right after `event`, most frequent first (ties by event), at most
    /// `limit` of them; none when nothing ever followed it.
    pub fn likely_next(&self, event: &str, limit: usize) -> (r: Vec<TransitionPrediction>)
        requires
            self.wf(),
        ensures
            predictions_ok(self.sessions_view(), event@, limit as nat, r@),
    {
        let ghost sess = self.sessions@;
        let ghost a = event@;
        let cand = outgoing(&self.transitions, event, Ghost(sess));
        let total: usize = match assoc_find(&self.out_totals, event) {
            Some(t) => *t,
            None => 0,
        };
        assert(total as nat == out_total(sess, a));
        let r = select_top(&cand, limit, total);
        proof {
            let rs = r@;
            assert forall|i: int| #![trigger rs[i]] 0 <= i < rs.len() implies rs[i].count as nat == transition_count(sess, a, rs[i].event@)
                && rs[i].count > 0 && rs[i].total as nat == out_total(sess, a) by {
                let k = choose|k: int| 0 <= k < cand@.len() && cand@[k].0@ == rs[i].event@ && cand@[k].1 == rs[i].count;
                assert(cand@[k].1 as nat == transition_count(sess, a, cand@[k].0@));
            }
            assert forall|b: Seq<char>| #[trigger] transition_count(sess, a, b) > 0 && !(exists|i: int| 0 <= i < rs.len() && rs[i].event@ == b)
                implies rs.len() == limit && forall|i: int| 0 <= i < rs.len() ==> ranks_before(prediction_rank(#[trigger] rs[i]), (b, transition_count(sess, a, b))) by {
                let k = choose|k: int| 0 <= k < cand@.len() && cand@[k].0@ == b;
                assert(cand@[k].1 as nat == transition_count(sess, a, cand@[k].0@));
                assert(candidate_rank(cand@[k]) == (b, transition_count(sess, a, b)));
                assert(!has_prediction(rs, cand@[k].0@));
            }
        }
        r
    }

    /// In how many of the observed sessions the tool was called.
    pub fn tool_use_sessions(&self, tool_name: &str) -> (r: usize)
        requires
            self.wf(),
        ensures
            r == sessions_with(self.sessions_view(), call_prefix() + tool_name@),
    {
        match assoc_find(&self.tool_sessions, tool_name) {
            Some(c) => *c,
            None => 0,
        }
    }
}


/// The events of each session, in order.
pub open spec fn sessions_events(sessions: Seq<Vec<RunMessage>>) -> Seq<Seq<Seq<char>>> {
    Seq::new(sessions.len(), |i: int| message_events(messages_view(sessions[i]@)))
}

proof fn lemma_total_prefix(s: Seq<Seq<Seq<char>>>, i: int)
    requires
        0 <= i < s.len(),
    ensures
        total_events(s.subrange(0, i + 1)) == total_events(s.subrange(0, i)) + s[i].len(),
        total_events(s.subrange(0, i + 1)) <= total_events(s),
    decreases s.len() - i,
{
    assert(s.subrange(0, i + 1).drop_last() =~= s.subrange(0, i));
    if i + 1 == s.len() {
        assert(s.subrange(0, i + 1) =~= s);
    } else {
        lemma_total_prefix(s, i + 1);
    }
}

impl TrajectoryProbabilityGraph {
    /// The graph of a list of sessions, observed in order.
    pub fn from_sessions(sessions: &Vec<Vec<RunMessage>>) -> (r: TrajectoryProbabilityGraph)
        requires
            total_events(sessions_events(sessions@)) <= usize::MAX,
        ensures
            r.wf(),
            r.sessions_view() == sessions_events(sessions@),
    {
        let mut graph = TrajectoryProbabilityGraph::new();
        let ghost all = sessions_events(sessions@);
        let mut i: usize = 0;
        while i < sessions.len()
            invariant
                i <= sessions@.len(),
                all == sessions_events(sessions@),
                total_events(all) <= usize::MAX,
                graph.wf(),
                graph.sessions_view() == all.subrange(0, i as int),
            decreases sessions.len() - i,
        {
            proof {
                lemma_total_prefix(all, i as int);
                assert(all[i as int] == message_events(messages_view(sessions@[i as int]@)));
            }
            graph.observe_session(&sessions[i]);
            proof {
                assert(graph.sessions_view() =~= all.subrange(0, i + 1));
            }
            i += 1;
        }
        assert(all.subrange(0, all.len() as int) =~= all);
        graph
    }

    /// The graph of the sessions replayed from snapshots, in order.
    pub fn from_replay_snapshots(snapshots: &Vec<ReplaySnapshot>) -> (r: TrajectoryProbabilityGraph)
        requires
            total_events(Seq::new(snapshots@.len(), |i: int| message_events(messages_view(snapshots@[i].messages@)))) <= usize::MAX,
        ensures
            r.wf(),
            r.sessions_view() == Seq::new(snapshots@.len(), |i: int| message_events(messages_view(snapshots@[i].messages@))),
    {
        let mut sessions: Vec<Vec<RunMessage>> = Vec::new();
        let mut i: usize = 0;
        while i < snapshots.len()
            invariant
                i <= snapshots@.len(),
                sessions@.len() == i,
                forall|k: int| 0 <= k < i ==> messages_view(#[trigger] sessions@[k]@) == messages_view(snapshots@[k].messages@),
            decreases snapshots.len() - i,
        {
            let copy = crate::message::dup_messages(&snapshots[i].messages);
            sessions.push(copy);
            i += 1;
        }
        proof {
            assert(sessions_events(sessions@) =~= Seq::new(snapshots@.len(), |i: int| message_events(messages_view(snapshots@[i].messages@))));
        }
        TrajectoryProbabilityGraph::from_sessions(&sessions)
    }
}

impl Default for TrajectoryProbabilityGraph {
    fn default() -> (r: TrajectoryProbabilityGraph)
        ensures
            r.wf(),
            r.sessions_view() == Seq::<Seq<Seq<char>>>::empty(),
    {
        TrajectoryProbabilityGraph::new()
    }
}

/// Which candidate calls to run ahead of time, and why the others were skipped.
#[derive(Debug)]
pub struct PreexecutionPlan {
    pub calls: Vec<ToolCall>,
    pub skipped: Vec<String>,
}

/// The results of the calls run ahead of time, and the tool messages that carry them.
#[derive(Debug)]
pub struct PreexecutionOutcome {
    pub results: Vec<ToolResult>,
    pub messages: Vec<RunMessage>,
}

/// How tools are offered: hot tools directly, the others on search, hidden ones not at all.
#[derive(Debug, Clone, PartialEq, Eq)]
pub struct ToolLayerPlan {
    pub direct_tools: Vec<String>,
    pub dynamic_tools: Vec<String>,
    pub hidden_tools: Vec<String>,
    pub visibility: Vec<(String, ToolVisibility)>,
}

/// Why a candidate call is not run ahead of time, or `None` when it is: it is not among the
/// hot tools, or it is not visible to the agent, or it is not safe to run early.
pub open spec fn skip_reason(registry: ToolRegistry, definition: AgentDefinition, hot: Seq<Seq<char>>, name: Seq<char>) -> Option<Seq<char>> {
    if !hot.contains(name) {
        Some(name + ":probability"@)
    } else if !crate::tool_registry::has_name(registry.entries(), name) || crate::tool_registry::visibility_for(
        definition,
        registry.entries()[crate::tool_registry::index_of(registry.entries(), name)],
    ) == ToolVisibility::Hidden {
        Some(name + ":not_visible"@)
    } else if registry.preexecutable(name) {
        None
    } else {
        Some(name + ":not_preexecutable"@)
    }
}

/// The candidate calls that run ahead of time, in order.
pub open spec fn planned_calls(registry: ToolRegistry, definition: AgentDefinition, hot: Seq<Seq<char>>, cs: Seq<ToolCall>) -> Seq<ToolCall>
    decreases cs.len(),
{
    if cs.len() == 0 {
        Seq::empty()
    } else {
        let rest = planned_calls(registry, definition, hot, cs.drop_last());
        if skip_reason(registry, definition, hot, cs.last().tool_name@) is None {
            rest.push(cs.last())
        } else {
            rest
        }
    }
}

/// The reasons the other candidate calls were skipped, in order.
pub open spec fn planned_skips(registry: ToolRegistry, definition: AgentDefinition, hot: Seq<Seq<char>>, cs: Seq<ToolCall>) -> Seq<Seq<char>>
    decreases cs.len(),
{
    if cs.len() == 0 {
        Seq::empty()
    } else {
        let rest = planned_skips(registry, definition, hot, cs.drop_last());
        match skip_reason(registry, definition, hot, cs.last().tool_name@) {
            Some(why) => rest.push(why),
            None => rest,
        }
    }
}

/// The layer a tool lands in: hidden stays hidden, a hot tool is offered directly, any other
/// is found by search.
pub open spec fn layer_for(current: ToolVisibility, hot: Seq<Seq<char>>, name: Seq<char>) -> ToolVisibility {
    if current == ToolVisibility::Hidden {
        ToolVisibility::Hidden
    } else if hot.contains(name) {
        ToolVisibility::Direct
    } else {
        ToolVisibility::Searchable
    }
}

/// The names of the tools, in order, that land in a given layer.
pub open spec fn names_in_layer(base: Seq<(Seq<char>, ToolVisibility)>, hot: Seq<Seq<char>>, layer: ToolVisibility) -> Seq<Seq<char>>
    decreases base.len(),
{
    if base.len() == 0 {
        Seq::empty()
    } else {
        let rest = names_in_layer(base.drop_last(), hot, layer);
        if layer_for(base.last().1, hot, base.last().0) == layer {
            rest.push(base.last().0)
        } else {
            rest
        }
    }
}

impl TrajectoryProbabilityGraph {
    /// Sorts candidate calls into those to run ahead of time and those skipped, given the
    /// tools that are hot enough (used in a large enough share of the sessions).
    pub fn plan_preexecution(
        &self,
        registry: &ToolRegistry,
        definition: &AgentDefinition,
        candidates: Vec<ToolCall>,
        hot_tools: &Vec<String>,
    ) -> (r: PreexecutionPlan)
        ensures
            r.calls@ == planned_calls(*registry, *definition, crate::assoc::strings_view(hot_tools@), candidates@),
            views_of(r.skipped@) == planned_skips(*registry, *definition, crate::assoc::strings_view(hot_tools@), candidates@),
    {
        let ghost hot = crate::assoc::strings_view(hot_tools@);
        let ghost cs = candidates@;
        let total_candidates = candidates.len();
        assert(cs.len() == total_candidates);
        let mut calls: Vec<ToolCall> = Vec::new();
        let mut skipped: Vec<String> = Vec::new();
        let mut rest = candidates;
        let mut i: usize = 0;
        while rest.len() > 0
            invariant
                i <= cs.len(),
                cs.len() <= usize::MAX,
                hot == crate::assoc::strings_view(hot_tools@),
                rest@ == cs.subrange(i as int, cs.len() as int),
                calls@ == planned_calls(*registry, *definition, hot, cs.subrange(0, i as int)),
                views_of(skipped@) == planned_skips(*registry, *definition, hot, cs.subrange(0, i as int)),
            decreases rest.len(),
        {
            let candidate = rest.remove(0);
            proof {
                assert(candidate == cs[i as int]);
                assert(rest@ =~= cs.subrange(i + 1, cs.len() as int));
                let sub = cs.subrange(0, i + 1);
                assert(sub.drop_last() =~= cs.subrange(0, i as int));
                assert(sub.last() == candidate);
            }
            let ghost before = views_of(skipped@);
            let ghost why = skip_reason(*registry, *definition, hot, candidate.tool_name@);
            if !crate::assoc::strings_contain(hot_tools, candidate.tool_name.as_str()) {
                let mut t = candidate.tool_name.clone();
                t.append(":probability");
                skipped.push(t);
                assert(views_of(skipped@) =~= before.push(why->0));
            } else {
                let visible = match registry.get_for_agent(definition, candidate.tool_name.as_str()) {
                    Ok(_) => true,
                    Err(_) => false,
                };
                if !visible {
                    let mut t = candidate.tool_name.clone();
                    t.append(":not_visible");
                    skipped.push(t);
                    assert(views_of(skipped@) =~= before.push(why->0));
                } else {
                    let pre = match registry.metadata_of(candidate.tool_name.as_str()) {
                        Some(m) => m.can_preexecute(),
                        None => false,
                    };
                    if pre {
                        calls.push(candidate);
                    } else {
                        let mut t = candidate.tool_name.clone();
                        t.append(":not_preexecutable");
                        skipped.push(t);
                        assert(views_of(skipped@) =~= before.push(why->0));
                    }
                }
            }
            i += 1;
        }
        assert(i == cs.len());
        assert(cs.subrange(0, cs.len() as int) =~= cs);
        PreexecutionPlan { calls, skipped }
    }

    /// Offers each tool of the base visibility in its layer (see [`layer_for`]), in name order.
    pub fn plan_tool_layers(&self, base_visibility: &Vec<(String, ToolVisibility)>, hot_tools: &Vec<String>) -> (r: ToolLayerPlan)
        ensures
            pairs_view(r.visibility@) == Seq::new(
                base_visibility@.len(),
                |i: int| (base_visibility@[i].0@, layer_for(base_visibility@[i].1, crate::assoc::strings_view(hot_tools@), base_visibility@[i].0@)),
            ),
            views_of(r.direct_tools@) == names_in_layer(pairs_view(base_visibility@), crate::assoc::strings_view(hot_tools@), ToolVisibility::Direct),
            views_of(r.dynamic_tools@) == names_in_layer(pairs_view(base_visibility@), crate::assoc::strings_view(hot_tools@), ToolVisibility::Searchable),
            views_of(r.hidden_tools@) == names_in_layer(pairs_view(base_visibility@), crate::assoc::strings_view(hot_tools@), ToolVisibility::Hidden),
    {
        let ghost hot = crate::assoc::strings_view(hot_tools@);
        let ghost base = pairs_view(base_visibility@);
        let mut direct: Vec<String> = Vec::new();
        let mut dynamic: Vec<String> = Vec::new();
        let mut hidden: Vec<String> = Vec::new();
        let mut visibility: Vec<(String, ToolVisibility)> = Vec::new();
        let mut i: usize = 0;
        while i < base_visibility.len()
            invariant
                i <= base_visibility@.len(),
                base == pairs_view(base_visibility@),
                hot == crate::assoc::strings_view(hot_tools@),
                visibility@.len() == i,
                forall|k: int| 0 <= k < i ==> (#[trigger] visibility@[k]).0@ == base_visibility@[k].0@
                    && visibility@[k].1 == layer_for(base_visibility@[k].1, hot, base_visibility@[k].0@),
                views_of(direct@) == names_in_layer(base.subrange(0, i as int), hot, ToolVisibility::Direct),
                views_of(dynamic@) == names_in_layer(base.subrange(0, i as int), hot, ToolVisibility::Searchable),
                views_of(hidden@) == names_in_layer(base.subrange(0, i as int), hot, ToolVisibility::Hidden),
            decreases base_visibility.len() - i,
        {
            let name = &base_visibility[i].0;
            let current = base_visibility[i].1;
            let ghost d0 = views_of(direct@);
            let ghost y0 = views_of(dynamic@);
            let ghost h0 = views_of(hidden@);
            let ghost v0 = pairs_view(visibility@);
            proof {
                let sub = base.subrange(0, i + 1);
                assert(sub.drop_last() =~= base.subrange(0, i as int));
                assert(sub.last() == (name@, current));
            }
            let is_hidden = match current {
                ToolVisibility::Hidden => true,
                _ => false,
            };
            let next = if is_hidden {
                hidden.push(name.clone());
                assert(views_of(hidden@) =~= h0.push(name@));
                ToolVisibility::Hidden
            } else if crate::assoc::strings_contain(hot_tools, name.as_str()) {
                direct.push(name.clone());
                assert(views_of(direct@) =~= d0.push(name@));
                ToolVisibility::Direct
            } else {
                dynamic.push(name.clone());
                assert(views_of(dynamic@) =~= y0.push(name@));
                ToolVisibility::Searchable
            };
            let key = name.clone();
            assert(key@ == base_visibility@[i as int].0@);
            let ghost vis0 = visibility@;
            visibility.push((key, next));
            proof {
                assert(next == layer_for(current, hot, name@));
                assert forall|k: int| 0 <= k < i + 1 implies (#[trigger] visibility@[k]).0@ == base_visibility@[k].0@
                    && visibility@[k].1 == layer_for(base_visibility@[k].1, hot, base_visibility@[k].0@) by {
                    if k < i {
                        assert(visibility@[k] == vis0[k]);
                    }
                }
            }
            i += 1;
        }
        assert(base.subrange(0, base.len() as int) =~= base);
        assert(pairs_view(visibility@) =~= Seq::new(
            base_visibility@.len(),
            |i: int| (base_visibility@[i].0@, layer_for(base_visibility@[i].1, hot, base_visibility@[i].0@)),
        ));
        ToolLayerPlan { direct_tools: direct, dynamic_tools: dynamic, hidden_tools: hidden, visibility }
    }

    /// Runs the planned calls, in order, and turns each result into a tool message.
    pub fn execute_preexecution_plan(
        executor: &ToolExecutor,
        definition: &AgentDefinition,
        plan: PreexecutionPlan,
    ) -> (r: AgentCoreResult<PreexecutionOutcome>)
        ensures
            r matches Ok(o) ==> {
                &&& o.results@.len() == plan.calls@.len()
                &&& o.messages@.len() == o.results@.len()
                &&& forall|i: int| 0 <= i < o.results@.len() ==> (#[trigger] o.results@[i])@.call_id == plan.calls@[i].call_id@
                    && o.results@[i]@.tool_name == plan.calls@[i].tool_name@
                &&& forall|i: int| 0 <= i < o.messages@.len() ==> (#[trigger] o.messages@[i]).role == MessageRole::Tool
                    && crate::message::blocks_view(o.messages@[i].content@) == seq![BlockV::ToolResult {
                        call_id: o.results@[i]@.call_id,
                        tool_name: Some(o.results@[i]@.tool_name),
                        output: crate::tool::output_for_model_of(o.results@[i]@),
                        is_error: o.results@[i]@.status != crate::tool::ToolResultStatus::Success,
                    }]
            },
            plan.calls@.len() == 0 ==> (r matches Ok(o) && o.results@.len() == 0 && o.messages@.len() == 0),
            plan.calls@.len() > 0 && executor.call_unknown(plan.calls@[0]) ==> r matches Err(AgentCoreError::NotFound(_)),
            plan.calls@.len() > 0 && executor.call_hidden(*definition, plan.calls@[0]) ==> r matches Err(AgentCoreError::PermissionDenied(_)),
    {
        let results = match executor.execute_batch(definition, plan.calls) {
            Ok(v) => v,
            Err(e) => return Err(e),
        };
        let mut messages: Vec<RunMessage> = Vec::new();
        let mut i: usize = 0;
        while i < results.len()
            invariant
                i <= results@.len(),
                messages@.len() == i,
                forall|k: int| 0 <= k < i ==> (#[trigger] messages@[k]).role == MessageRole::Tool
                    && crate::message::blocks_view(messages@[k].content@) == seq![BlockV::ToolResult {
                        call_id: results@[k]@.call_id,
                        tool_name: Some(results@[k]@.tool_name),
                        output: crate::tool::output_for_model_of(results@[k]@),
                        is_error: results@[k]@.status != crate::tool::ToolResultStatus::Success,
                    }],
            decreases results.len() - i,
        {
            match results[i].into_run_message() {
                Ok(m) => messages.push(m),
                Err(e) => return Err(e),
            }
            i += 1;
        }
        Ok(PreexecutionOutcome { results, messages })
    }
}

impl TrajectoryProbabilityGraph {
    /// A tool is called in at most as many sessions as were observed, and no transition out
    /// of an event happened more often than all transitions out of it together.
    pub proof fn lemma_counts_within_totals(&self, tool: Seq<char>, a: Seq<char>, b: Seq<char>)
        requires
            self.wf(),
        ensures
            sessions_with(self.sessions_view(), call_prefix() + tool) <= self.sessions_view().len(),
            transition_count(self.sessions_view(), a, b) <= out_total(self.sessions_view(), a),
    {
    }
}

/// Every session is counted: a graph built from `sessions` (as `from_sessions` builds it)
/// that then observes the sessions `observed` one by one (as `observe_session` does, the
/// `k`-th graph in `graphs` being the one after `k` observations) holds the built ones
/// followed by the observed ones, so its `session_count` is `sessions.len()` plus the number
/// of observations.
pub proof fn lemma_session_count_after_observations(
    graphs: Seq<TrajectoryProbabilityGraph>,
    sessions: Seq<Seq<Seq<char>>>,
    observed: Seq<Seq<Seq<char>>>,
)
    requires
        graphs.len() == observed.len() + 1,
        graphs[0].sessions_view() == sessions,
        forall|k: int| #![trigger observed[k]] 0 <= k < observed.len()
            ==> graphs[k + 1].sessions_view() == graphs[k].sessions_view().push(observed[k]),
    ensures
        graphs.last().sessions_view() == sessions + observed,
        graphs.last().sessions_view().len() == sessions.len() + observed.len(),
    decreases observed.len(),
{
    if observed.len() > 0 {
        let g2 = graphs.drop_last();
        let o2 = observed.drop_last();
        assert forall|k: int| #![trigger o2[k]] 0 <= k < o2.len()
            implies g2[k + 1].sessions_view() == g2[k].sessions_view().push(o2[k]) by {
            assert(o2[k] == observed[k]);
        }
        lemma_session_count_after_observations(g2, sessions, o2);
        let last = observed.len() - 1;
        assert(observed[last] == observed.last());
        assert(sessions + observed =~= (sessions + o2).push(observed.last()));
    }
}

} // verus!
