//! Sessions: entries kept as a tree (each entry points to its parent), the branch from a
//! root to a leaf, replaying a branch into the messages it holds, compaction entries that
//! summarize what came before, and stores that keep entries in append order.

use vstd::prelude::*;
use crate::error::{AgentCoreError, AgentCoreResult};
use crate::message::{MessageStatus, MessageV, RunMessage, messages_view};
use crate::sys::{new_id, now_ms};
use crate::text::{dup_string, is_blank, owned, str_is_blank};

verus! {

/// What an entry records.
#[derive(Debug)]
pub enum SessionEntryKind {
    Header { session_id: u128 },
    Message { message: RunMessage },
    Compaction { summary: String, first_kept_entry_id: Option<u128> },
}

pub enum KindV {
    Header(u128),
    Message(MessageV),
    Compaction(Seq<char>, Option<u128>),
}

/// One entry of a session: its id, its parent's id (none for a root), when it was made and
/// what it records.
#[derive(Debug)]
pub struct SessionEntry {
    pub id: u128,
    pub parent_id: Option<u128>,
    pub timestamp_ms: u64,
    pub kind: SessionEntryKind,
}

pub struct EntryV {
    pub id: u128,
    pub parent: Option<u128>,
    pub kind: KindV,
}

impl SessionEntryKind {
    pub open spec fn view(&self) -> KindV {
        match self {
            SessionEntryKind::Header { session_id } => KindV::Header(*session_id),
            SessionEntryKind::Message { message } => KindV::Message(message.view()),
            SessionEntryKind::Compaction { summary, first_kept_entry_id } => KindV::Compaction(summary@, *first_kept_entry_id),
        }
    }

    pub fn dup(&self) -> (r: SessionEntryKind)
        ensures
            r@ == self@,
    {
        match self {
            SessionEntryKind::Header { session_id } => SessionEntryKind::Header { session_id: *session_id },
            SessionEntryKind::Message { message } => SessionEntryKind::Message { message: message.dup() },
            SessionEntryKind::Compaction { summary, first_kept_entry_id } => SessionEntryKind::Compaction {
                summary: dup_string(summary),
                first_kept_entry_id: *first_kept_entry_id,
            },
        }
    }
}

pub open spec fn entries_view(v: Seq<SessionEntry>) -> Seq<EntryV> {
    Seq::new(v.len(), |i: int| v[i]@)
}

pub open spec fn entry_refs_view(v: Seq<&SessionEntry>) -> Seq<EntryV> {
    Seq::new(v.len(), |i: int| v[i]@)
}

impl SessionEntry {
    pub open spec fn view(&self) -> EntryV {
        EntryV { id: self.id, parent: self.parent_id, kind: self.kind@ }
    }

    /// A new entry with a fresh id, made now.
    pub fn new(parent_id: Option<u128>, kind: SessionEntryKind) -> (r: SessionEntry)
        ensures
            r.parent_id == parent_id && r.kind == kind,
    {
        SessionEntry { id: new_id(), parent_id, timestamp_ms: now_ms(), kind }
    }

    /// The root entry of a session.
    pub fn header(session_id: u128) -> (r: SessionEntry)
        ensures
            r.parent_id is None && r.kind == (SessionEntryKind::Header { session_id }),
    {
        SessionEntry::new(None, SessionEntryKind::Header { session_id })
    }

    /// An entry committing a message; only finalized messages are committed.
    pub fn message(parent_id: Option<u128>, message: RunMessage) -> (r: AgentCoreResult<SessionEntry>)
        ensures
            message.status != MessageStatus::Finalized ==> (r matches Err(AgentCoreError::InvalidInput(t))
                && t@ == "session can only commit finalized messages"@),
            message.status == MessageStatus::Finalized ==> (r matches Ok(e) && e.parent_id == parent_id
                && e.kind == (SessionEntryKind::Message { message })),
    {
        if message.status != MessageStatus::Finalized {
            return Err(AgentCoreError::InvalidInput(owned("session can only commit finalized messages")));
        }
        Ok(SessionEntry::new(parent_id, SessionEntryKind::Message { message }))
    }

    /// An entry summarizing what came before, naming the first entry kept in full.
    pub fn compaction(parent_id: Option<u128>, summary: &str, first_kept_entry_id: Option<u128>) -> (r: SessionEntry)
        ensures
            r.parent_id == parent_id && r.kind@ == KindV::Compaction(summary@, first_kept_entry_id),
    {
        SessionEntry::new(parent_id, SessionEntryKind::Compaction { summary: owned(summary), first_kept_entry_id })
    }

    pub fn as_message(&self) -> (r: Option<&RunMessage>)
        ensures
            self.kind matches SessionEntryKind::Message { message } ==> r == Some(&message),
            !(self.kind is Message) ==> r is None,
    {
        match &self.kind {
            SessionEntryKind::Message { message } => Some(message),
            _ => None,
        }
    }

    pub fn dup(&self) -> (r: SessionEntry)
        ensures
            r@ == self@ && r.timestamp_ms == self.timestamp_ms,
    {
        SessionEntry { id: self.id, parent_id: self.parent_id, timestamp_ms: self.timestamp_ms, kind: self.kind.dup() }
    }
}

/// The index of the first entry with an id, or -1.
pub open spec fn find_id(s: Seq<EntryV>, id: u128) -> int
    decreases s.len(),
{
    if s.len() == 0 {
        -1
    } else if find_id(s.drop_last(), id) >= 0 {
        find_id(s.drop_last(), id)
    } else if s.last().id == id {
        s.len() - 1
    } else {
        -1
    }
}

proof fn lemma_find_id(s: Seq<EntryV>, id: u128)
    ensures
        -1 <= find_id(s, id) < s.len(),
        find_id(s, id) >= 0 ==> s[find_id(s, id)].id == id && forall|k: int| 0 <= k < find_id(s, id) ==> (#[trigger] s[k]).id != id,
        find_id(s, id) == -1 ==> forall|k: int| 0 <= k < s.len() ==> (#[trigger] s[k]).id != id,
    decreases s.len(),
{
    if s.len() > 0 {
        let t = s.drop_last();
        lemma_find_id(t, id);
        assert forall|k: int| 0 <= k < t.len() implies s[k] == t[k] by {}
    }
}

/// The ids are distinct and every parent comes earlier.
pub open spec fn tree_wf(s: Seq<EntryV>) -> bool {
    &&& forall|i: int, j: int| 0 <= i < j < s.len() ==> (#[trigger] s[i]).id != (#[trigger] s[j]).id
    &&& forall|i: int| 0 <= i < s.len() && (#[trigger] s[i]).parent is Some ==> 0 <= find_id(s, s[i].parent->0) < i
}

/// The branch from a root down to entry `i`, root first.
pub open spec fn path_to(s: Seq<EntryV>, i: int) -> Seq<EntryV>
    decreases i,
{
    if i < 0 || i >= s.len() {
        Seq::empty()
    } else {
        match s[i].parent {
            None => seq![s[i]],
            Some(p) => {
                let j = find_id(s, p);
                if 0 <= j < i {
                    path_to(s, j).push(s[i])
                } else {
                    seq![s[i]]
                }
            },
        }
    }
}

/// The entries of a session as a tree, with the leaf that is active.
#[derive(Debug)]
pub struct SessionTree {
    entries: Vec<SessionEntry>,
    active_leaf: Option<u128>,
}

impl SessionTree {
    /// The entries in the order they were appended.
    pub closed spec fn entries_seq(&self) -> Seq<EntryV> {
        entries_view(self.entries@)
    }

    pub closed spec fn active_view(&self) -> Option<u128> {
        self.active_leaf
    }

    #[verifier::type_invariant]
    spec fn inv(&self) -> bool {
        &&& tree_wf(entries_view(self.entries@))
        &&& self.active_leaf matches Some(l) ==> find_id(entries_view(self.entries@), l) >= 0
    }

    /// Ids are distinct, parents come before their children, and the active leaf is an entry.
    pub fn check_wf(&self)
        ensures
            tree_wf(self.entries_seq()),
            self.active_view() matches Some(l) ==> find_id(self.entries_seq(), l) >= 0,
    {
        proof {
            use_type_invariant(self);
        }
    }

    pub fn new() -> (r: SessionTree)
        ensures
            r.entries_seq() == Seq::<EntryV>::empty(),
            r.active_view() is None,
    {
        let r = SessionTree { entries: Vec::new(), active_leaf: None };
        assert(entries_view(r.entries@) =~= Seq::empty());
        r
    }

    fn position(&self, id: u128) -> (r: Option<usize>)
        ensures
            match r {
                Some(p) => p as int == find_id(self.entries_seq(), id),
                None => find_id(self.entries_seq(), id) == -1,
            },
    {
        proof {
            lemma_find_id(self.entries_seq(), id);
        }
        let mut i: usize = 0;
        while i < self.entries.len()
            invariant
                i <= self.entries@.len(),
                forall|k: int| 0 <= k < i ==> (#[trigger] self.entries_seq()[k]).id != id,
                -1 <= find_id(self.entries_seq(), id) < self.entries_seq().len(),
                find_id(self.entries_seq(), id) >= 0 ==> self.entries_seq()[find_id(self.entries_seq(), id)].id == id
                    && forall|k: int| 0 <= k < find_id(self.entries_seq(), id) ==> (#[trigger] self.entries_seq()[k]).id != id,
                find_id(self.entries_seq(), id) == -1 ==> forall|k: int| 0 <= k < self.entries_seq().len() ==> (#[trigger] self.entries_seq()[k]).id != id,
            decreases self.entries.len() - i,
        {
            if self.entries[i].id == id {
                assert(self.entries_seq()[i as int].id == id);
                return Some(i);
            }
            i += 1;
        }
        None
    }

    /// Appends an entry and makes it the active leaf: refused when its id is taken, or when
    /// it names a parent that is not in the tree.
    pub fn append(&mut self, entry: SessionEntry) -> (r: AgentCoreResult<u128>)
        ensures
            find_id(old(self).entries_seq(), entry.id) >= 0 ==> (r matches Err(AgentCoreError::InvalidInput(_))
                && final(self).entries_seq() == old(self).entries_seq() && final(self).active_view() == old(self).active_view()),
            find_id(old(self).entries_seq(), entry.id) == -1 && entry.parent_id is Some
                && find_id(old(self).entries_seq(), entry.parent_id->0) == -1 ==> (r matches Err(AgentCoreError::NotFound(_))
                && final(self).entries_seq() == old(self).entries_seq() && final(self).active_view() == old(self).active_view()),
            r is Ok <==> appendable(old(self).entries_seq(), entry@),
            r is Ok ==> r == Ok::<u128, AgentCoreError>(entry.id) && final(self).entries_seq() == old(self).entries_seq().push(entry@)
                && final(self).active_view() == Some(entry.id),
    {
        proof {
            use_type_invariant(&*self);
        }
        match self.position(entry.id) {
            Some(_) => {
                let mut t = owned("duplicate session entry id: ");
                t.append(crate::graph_query::uuid_text(entry.id).as_str());
                return Err(AgentCoreError::InvalidInput(t));
            },
            None => {},
        }
        match entry.parent_id {
            Some(parent) => {
                if self.position(parent).is_none() {
                    let mut t = owned("session parent entry not found: ");
                    t.append(crate::graph_query::uuid_text(parent).as_str());
                    return Err(AgentCoreError::NotFound(t));
                }
            },
            None => {},
        }
        let id = entry.id;
        let ghost s0 = self.entries_seq();
        let ghost e = entry@;
        self.active_leaf = None;
        let mut entries: Vec<SessionEntry> = Vec::new();
        std::mem::swap(&mut entries, &mut self.entries);
        assert(entries_view(entries@) == s0);
        entries.push(entry);
        proof {
            let s1 = entries_view(entries@);
            assert(s1 =~= s0.push(e));
            lemma_find_id_push(s0, e);
            lemma_find_id(s0, id);
            assert forall|i: int| 0 <= i < s1.len() && (#[trigger] s1[i]).parent is Some implies 0 <= find_id(s1, s1[i].parent->0) < i by {
                lemma_find_id_push_other(s0, e, s1[i].parent->0);
                lemma_find_id(s0, s1[i].parent->0);
            }
            assert forall|i: int, j: int| 0 <= i < j < s1.len() implies (#[trigger] s1[i]).id != (#[trigger] s1[j]).id by {
                if j == s0.len() {
                    assert(s1[j] == e);
                }
            }
            lemma_find_id_push_other(s0, e, id);
        }
        self.entries = entries;
        self.active_leaf = Some(id);
        Ok(id)
    }

    /// The entry with an id.
    pub fn get(&self, id: u128) -> (r: Option<&SessionEntry>)
        ensures
            find_id(self.entries_seq(), id) == -1 ==> r is None,
            find_id(self.entries_seq(), id) >= 0 ==> (r matches Some(e) && e@ == self.entries_seq()[find_id(self.entries_seq(), id)]),
    {
        proof {
            lemma_find_id(self.entries_seq(), id);
        }
        match self.position(id) {
            Some(p) => Some(&self.entries[p]),
            None => None,
        }
    }

    /// The ids of the roots, in append order.
    pub fn roots(&self) -> (r: Vec<u128>)
        ensures
            r@ == ids_with_parent(self.entries_seq(), None),
    {
        self.ids_with(None)
    }

    /// The ids of an entry's children, in append order.
    pub fn children_of(&self, id: u128) -> (r: Vec<u128>)
        ensures
            r@ == ids_with_parent(self.entries_seq(), Some(id)),
    {
        self.ids_with(Some(id))
    }

    fn ids_with(&self, parent: Option<u128>) -> (r: Vec<u128>)
        ensures
            r@ == ids_with_parent(self.entries_seq(), parent),
    {
        let mut out: Vec<u128> = Vec::new();
        let mut i: usize = 0;
        proof {
            assert(self.entries_seq().subrange(0, 0) =~= Seq::<EntryV>::empty());
        }
        while i < self.entries.len()
            invariant
                i <= self.entries@.len(),
                out@ == ids_with_parent(self.entries_seq().subrange(0, i as int), parent),
            decreases self.entries.len() - i,
        {
            proof {
                assert(self.entries_seq().subrange(0, i + 1).drop_last() =~= self.entries_seq().subrange(0, i as int));
            }
            if self.entries[i].parent_id == parent {
                out.push(self.entries[i].id);
            }
            i += 1;
        }
        proof {
            assert(self.entries_seq().subrange(0, i as int) =~= self.entries_seq());
        }
        out
    }

    pub fn active_leaf(&self) -> (r: Option<u128>)
        ensures
            r == self.active_view(),
    {
        self.active_leaf
    }

    /// Makes an entry the active leaf; refused when there is no such entry.
    pub fn set_active_leaf(&mut self, id: u128) -> (r: AgentCoreResult<()>)
        ensures
            final(self).entries_seq() == old(self).entries_seq(),
            find_id(old(self).entries_seq(), id) == -1 ==> (r matches Err(AgentCoreError::NotFound(_)) && final(self).active_view() == old(self).active_view()),
            find_id(old(self).entries_seq(), id) >= 0 ==> (r is Ok && final(self).active_view() == Some(id)),
    {
        proof {
            use_type_invariant(&*self);
        }
        match self.position(id) {
            Some(_) => {},
            None => {
                let mut t = owned("session entry not found: ");
                t.append(crate::graph_query::uuid_text(id).as_str());
                return Err(AgentCoreError::NotFound(t));
            },
        }
        self.active_leaf = Some(id);
        Ok(())
    }

    /// The branch from a root down to a leaf, root first; refused when there is no such leaf.
    pub fn branch_to(&self, leaf_id: u128) -> (r: AgentCoreResult<Vec<&SessionEntry>>)
        ensures
            find_id(self.entries_seq(), leaf_id) == -1 ==> (r matches Err(AgentCoreError::NotFound(_))),
            find_id(self.entries_seq(), leaf_id) >= 0 ==> (r matches Ok(v)
                && entry_refs_view(v@) == path_to(self.entries_seq(), find_id(self.entries_seq(), leaf_id))),
    {
        proof {
            use_type_invariant(self);
        }
        let ghost s = self.entries_seq();
        let start = match self.position(leaf_id) {
            Some(p) => p,
            None => {
                let mut t = owned("session entry not found: ");
                t.append(crate::graph_query::uuid_text(leaf_id).as_str());
                return Err(AgentCoreError::NotFound(t));
            },
        };
        // Walk up from the leaf, collecting positions, then read them root first.
        let mut up: Vec<usize> = Vec::new();
        let mut cur: usize = start;
        let ghost mut suffix: Seq<EntryV> = Seq::empty();
        proof {
            lemma_find_id(s, leaf_id);
            assert(path_to(s, start as int) =~= path_to(s, cur as int) + suffix);
        }
        loop
            invariant_except_break
                path_to(s, start as int) == path_to(s, cur as int) + suffix,
            invariant
                s == self.entries_seq(),
                tree_wf(s),
                cur < s.len(),
                up@.len() == suffix.len() + 0,
                forall|k: int| 0 <= k < up@.len() ==> (#[trigger] up@[k]) < s.len() && s[up@[k] as int] == suffix[suffix.len() - 1 - k],
            ensures
                path_to(s, start as int) == suffix,
                forall|k: int| 0 <= k < up@.len() ==> (#[trigger] up@[k]) < s.len() && s[up@[k] as int] == suffix[suffix.len() - 1 - k],
                up@.len() == suffix.len(),
            decreases cur,
        {
            let ghost before = suffix;
            up.push(cur);
            proof {
                suffix = seq![s[cur as int]] + before;
            }
            match self.entries[cur].parent_id {
                None => {
                    proof {
                        assert(path_to(s, cur as int) =~= seq![s[cur as int]]);
                        assert(path_to(s, start as int) =~= suffix);
                    }
                    break;
                },
                Some(p) => {
                    proof {
                        lemma_find_id(s, p);
                    }
                    let next = self.position(p).unwrap();
                    proof {
                        assert(path_to(s, cur as int) == path_to(s, next as int).push(s[cur as int]));
                        assert(path_to(s, start as int) =~= path_to(s, next as int) + suffix);
                    }
                    cur = next;
                },
            }
        }
        let mut out: Vec<&SessionEntry> = Vec::new();
        let mut k: usize = up.len();
        proof {
            assert(entry_refs_view(out@) =~= Seq::empty());
        }
        while k > 0
            invariant
                k <= up@.len(),
                up@.len() == suffix.len(),
                forall|q: int| 0 <= q < up@.len() ==> (#[trigger] up@[q]) < s.len() && s[up@[q] as int] == suffix[suffix.len() - 1 - q],
                s == self.entries_seq(),
                entry_refs_view(out@) == suffix.subrange(0, (up@.len() - k) as int),
            decreases k,
        {
            k -= 1;
            let idx = up[k];
            let ghost o0 = entry_refs_view(out@);
            out.push(&self.entries[idx]);
            proof {
                assert(entry_refs_view(out@) =~= o0.push(s[idx as int]));
                assert(suffix.subrange(0, (up@.len() - k) as int) =~= suffix.subrange(0, (up@.len() - k - 1) as int).push(suffix[(up@.len() - 1 - k) as int]));
            }
        }
        proof {
            assert(suffix.subrange(0, up@.len() as int) =~= suffix);
        }
        Ok(out)
    }

    /// The branch down to the active leaf; refused when the tree is empty.
    pub fn active_branch(&self) -> (r: AgentCoreResult<Vec<&SessionEntry>>)
        ensures
            self.active_view() is None ==> (r matches Err(AgentCoreError::NotFound(t)) && t@ == "session tree is empty"@),
            self.active_view() matches Some(l) ==> (r matches Ok(v)
                && entry_refs_view(v@) == path_to(self.entries_seq(), find_id(self.entries_seq(), l))),
    {
        proof {
            use_type_invariant(self);
        }
        match self.active_leaf {
            Some(l) => self.branch_to(l),
            None => Err(AgentCoreError::NotFound(owned("session tree is empty"))),
        }
    }

    pub fn len(&self) -> (r: usize)
        ensures
            r == self.entries_seq().len(),
    {
        self.entries.len()
    }

    pub fn is_empty(&self) -> (r: bool)
        ensures
            r == (self.entries_seq().len() == 0),
    {
        self.entries.len() == 0
    }
}

/// An entry may be appended: its id is new and its parent, if it names one, is there.
pub open spec fn appendable(s: Seq<EntryV>, e: EntryV) -> bool {
    find_id(s, e.id) == -1 && (e.parent matches Some(p) ==> find_id(s, p) >= 0)
}

/// The ids of the entries with a given parent, in order.
pub open spec fn ids_with_parent(s: Seq<EntryV>, parent: Option<u128>) -> Seq<u128>
    decreases s.len(),
{
    if s.len() == 0 {
        Seq::empty()
    } else {
        let rest = ids_with_parent(s.drop_last(), parent);
        if s.last().parent == parent {
            rest.push(s.last().id)
        } else {
            rest
        }
    }
}

proof fn lemma_find_id_push(s: Seq<EntryV>, e: EntryV)
    requires
        find_id(s, e.id) == -1,
    ensures
        find_id(s.push(e), e.id) == s.len(),
{
    assert(s.push(e).drop_last() =~= s);
}

proof fn lemma_find_id_push_other(s: Seq<EntryV>, e: EntryV, id: u128)
    ensures
        find_id(s, id) >= 0 ==> find_id(s.push(e), id) == find_id(s, id),
        find_id(s, id) == -1 && e.id == id ==> find_id(s.push(e), id) == s.len(),
        find_id(s, id) == -1 && e.id != id ==> find_id(s.push(e), id) == -1,
{
    assert(s.push(e).drop_last() =~= s);
}

/// Appending keeps the path to every earlier entry.
proof fn lemma_path_push(s: Seq<EntryV>, e: EntryV, i: int)
    requires
        0 <= i < s.len(),
    ensures
        path_to(s.push(e), i) == path_to(s, i),
    decreases i,
{
    let t = s.push(e);
    assert(t[i] == s[i]);
    match s[i].parent {
        None => {},
        Some(p) => {
            lemma_find_id_push_other(s, e, p);
            lemma_find_id(s, p);
            let j = find_id(s, p);
            if 0 <= j < i {
                lemma_path_push(s, e, j);
            }
        },
    }
}

/// A law of the session tree: appending an entry under the active leaf extends the active
/// branch by that entry.
pub proof fn lemma_append_extends_branch(s: Seq<EntryV>, leaf: u128, e: EntryV)
    requires
        tree_wf(s),
        find_id(s, leaf) >= 0,
        find_id(s, e.id) == -1,
        e.parent == Some(leaf),
    ensures
        path_to(s.push(e), find_id(s.push(e), e.id)) == path_to(s, find_id(s, leaf)).push(e),
{
    let t = s.push(e);
    lemma_find_id_push(s, e);
    lemma_find_id_push_other(s, e, leaf);
    lemma_find_id(s, leaf);
    let j = find_id(s, leaf);
    assert(t[s.len() as int] == e);
    assert(path_to(t, s.len() as int) == path_to(t, j).push(e));
    lemma_path_push(s, e, j);
}

/// What a replayed branch holds: its leaf, its entries, the messages after the last
/// compaction boundary and every compaction summary.
#[derive(Debug)]
pub struct ReplaySnapshot {
    pub leaf_id: Option<u128>,
    pub entries: Vec<SessionEntry>,
    pub messages: Vec<RunMessage>,
    pub summaries: Vec<String>,
}

impl ReplaySnapshot {
    pub fn is_empty(&self) -> (r: bool)
        ensures
            r == (self.entries@.len() == 0),
    {
        self.entries.len() == 0
    }
}

/// The summaries of the compactions among the entries, in order.
pub open spec fn summaries_of(s: Seq<EntryV>) -> Seq<Seq<char>>
    decreases s.len(),
{
    if s.len() == 0 {
        Seq::empty()
    } else {
        let rest = summaries_of(s.drop_last());
        match s.last().kind {
            KindV::Compaction(summary, _) => rest.push(summary),
            _ => rest,
        }
    }
}

/// Where messages start: after the last compaction, or at the entry it names as the first
/// kept one when that entry is on the branch.
pub open spec fn message_start(s: Seq<EntryV>) -> int
    decreases s.len(),
{
    if s.len() == 0 {
        0
    } else {
        match s.last().kind {
            KindV::Compaction(_, first_kept) => match first_kept {
                Some(k) => if find_id(s, k) >= 0 {
                    find_id(s, k)
                } else {
                    s.len() as int
                },
                None => s.len() as int,
            },
            _ => message_start(s.drop_last()),
        }
    }
}

/// The messages among the entries, in order.
pub open spec fn messages_of(s: Seq<EntryV>) -> Seq<MessageV>
    decreases s.len(),
{
    if s.len() == 0 {
        Seq::empty()
    } else {
        let rest = messages_of(s.drop_last());
        match s.last().kind {
            KindV::Message(m) => rest.push(m),
            _ => rest,
        }
    }
}

pub open spec fn strings_view(v: Seq<String>) -> Seq<Seq<char>> {
    Seq::new(v.len(), |i: int| v[i]@)
}

/// Replays the branch down to a leaf: its entries, every compaction summary, and the
/// messages from the boundary the last compaction sets.
pub fn replay_branch(tree: &SessionTree, leaf_id: u128) -> (r: AgentCoreResult<ReplaySnapshot>)
    ensures
        find_id(tree.entries_seq(), leaf_id) == -1 ==> r is Err,
        find_id(tree.entries_seq(), leaf_id) >= 0 ==> (r matches Ok(snap) && {
            let b = path_to(tree.entries_seq(), find_id(tree.entries_seq(), leaf_id));
            &&& snap.leaf_id == Some(leaf_id)
            &&& entries_view(snap.entries@) == b
            &&& strings_view(snap.summaries@) == summaries_of(b)
            &&& messages_view(snap.messages@) == messages_of(b.subrange(message_start(b), b.len() as int))
        }),
{
    let refs = match tree.branch_to(leaf_id) {
        Ok(v) => v,
        Err(e) => {
            return Err(e);
        },
    };
    let ghost b = entry_refs_view(refs@);
    let mut entries: Vec<SessionEntry> = Vec::new();
    let mut summaries: Vec<String> = Vec::new();
    let mut start: usize = 0;
    let mut i: usize = 0;
    proof {
        assert(b.subrange(0, 0) =~= Seq::<EntryV>::empty());
        assert(entries_view(entries@) =~= Seq::empty());
        assert(strings_view(summaries@) =~= Seq::empty());
    }
    while i < refs.len()
        invariant
            i <= refs@.len(),
            b == entry_refs_view(refs@),
            entries_view(entries@) == b.subrange(0, i as int),
            strings_view(summaries@) == summaries_of(b.subrange(0, i as int)),
            start as int == message_start(b.subrange(0, i as int)),
            start <= i,
        decreases refs.len() - i,
    {
        let entry = refs[i];
        proof {
            assert(b.subrange(0, i + 1).drop_last() =~= b.subrange(0, i as int));
            assert(b[i as int] == entry@);
        }
        let ghost e0 = entries_view(entries@);
        entries.push(entry.dup());
        proof {
            assert(entries_view(entries@) =~= e0.push(entry@));
            assert(b.subrange(0, i + 1) =~= b.subrange(0, i as int).push(entry@));
        }
        match &entry.kind {
            SessionEntryKind::Compaction { summary, first_kept_entry_id } => {
                let ghost s0 = strings_view(summaries@);
                summaries.push(dup_string(summary));
                proof {
                    assert(strings_view(summaries@) =~= s0.push(summary@));
                }
                proof {
                    if let Some(k) = first_kept_entry_id {
                        lemma_find_id(entries_view(entries@), *k);
                    }
                }
                start = match first_kept_entry_id {
                    Some(k) => match position_in(&entries, *k) {
                        Some(p) => p,
                        None => i + 1,
                    },
                    None => i + 1,
                };
            },
            _ => {},
        }
        i += 1;
    }
    proof {
        assert(b.subrange(0, i as int) =~= b);
    }
    let mut messages: Vec<RunMessage> = Vec::new();
    let mut k: usize = start;
    proof {
        assert(b.subrange(start as int, start as int) =~= Seq::<EntryV>::empty());
        assert(messages_view(messages@) =~= Seq::empty());
    }
    while k < entries.len()
        invariant
            start <= k <= entries@.len(),
            entries_view(entries@) == b,
            messages_view(messages@) == messages_of(b.subrange(start as int, k as int)),
        decreases entries.len() - k,
    {
        proof {
            assert(b.subrange(start as int, k + 1).drop_last() =~= b.subrange(start as int, k as int));
            assert(b[k as int] == entries@[k as int]@);
        }
        match &entries[k].kind {
            SessionEntryKind::Message { message } => {
                let ghost m0 = messages_view(messages@);
                messages.push(message.dup());
                proof {
                    assert(messages_view(messages@) =~= m0.push(message.view()));
                }
            },
            _ => {},
        }
        k += 1;
    }
    Ok(ReplaySnapshot { leaf_id: Some(leaf_id), entries, messages, summaries })
}

fn position_in(entries: &Vec<SessionEntry>, id: u128) -> (r: Option<usize>)
    ensures
        match r {
            Some(p) => p as int == find_id(entries_view(entries@), id),
            None => find_id(entries_view(entries@), id) == -1,
        },
{
    let ghost s = entries_view(entries@);
    proof {
        lemma_find_id(s, id);
    }
    let mut i: usize = 0;
    while i < entries.len()
        invariant
            s == entries_view(entries@),
            i <= entries@.len(),
            forall|k: int| 0 <= k < i ==> (#[trigger] s[k]).id != id,
            -1 <= find_id(s, id) < s.len(),
            find_id(s, id) >= 0 ==> s[find_id(s, id)].id == id && forall|k: int| 0 <= k < find_id(s, id) ==> (#[trigger] s[k]).id != id,
            find_id(s, id) == -1 ==> forall|k: int| 0 <= k < s.len() ==> (#[trigger] s[k]).id != id,
        decreases entries.len() - i,
    {
        if entries[i].id == id {
            assert(s[i as int].id == id);
            return Some(i);
        }
        i += 1;
    }
    None
}

/// Replays the active branch; an empty tree replays to nothing.
pub fn replay_active_branch(tree: &SessionTree) -> (r: AgentCoreResult<ReplaySnapshot>)
    ensures
        tree.active_view() is None ==> (r matches Ok(snap) && snap.leaf_id is None && snap.entries@.len() == 0
            && snap.messages@.len() == 0 && snap.summaries@.len() == 0),
        tree.active_view() matches Some(l) ==> (r matches Ok(snap) && {
            let b = path_to(tree.entries_seq(), find_id(tree.entries_seq(), l));
            &&& snap.leaf_id == Some(l)
            &&& entries_view(snap.entries@) == b
            &&& strings_view(snap.summaries@) == summaries_of(b)
            &&& messages_view(snap.messages@) == messages_of(b.subrange(message_start(b), b.len() as int))
        }),
{
    tree.check_wf();
    match tree.active_leaf() {
        Some(l) => replay_branch(tree, l),
        None => Ok(ReplaySnapshot { leaf_id: None, entries: Vec::new(), messages: Vec::new(), summaries: Vec::new() }),
    }
}

/// A compaction to record: its parent, its summary and the first entry kept in full.
#[derive(Debug, PartialEq, Eq)]
pub struct CompactionPlan {
    pub parent_id: Option<u128>,
    pub summary: String,
    pub first_kept_entry_id: Option<u128>,
}

impl CompactionPlan {
    /// A plan; refused when the summary is blank.
    pub fn new(parent_id: Option<u128>, summary: &str, first_kept_entry_id: Option<u128>) -> (r: AgentCoreResult<CompactionPlan>)
        ensures
            is_blank(summary@) ==> (r matches Err(AgentCoreError::InvalidInput(t)) && t@ == "compaction summary cannot be empty"@),
            !is_blank(summary@) ==> (r matches Ok(p) && p.parent_id == parent_id && p.summary@ == summary@
                && p.first_kept_entry_id == first_kept_entry_id),
    {
        if str_is_blank(summary) {
            return Err(AgentCoreError::InvalidInput(owned("compaction summary cannot be empty")));
        }
        Ok(CompactionPlan { parent_id, summary: owned(summary), first_kept_entry_id })
    }

    /// The compaction entry the plan records.
    pub fn into_entry(self) -> (r: SessionEntry)
        ensures
            r.parent_id == self.parent_id && r.kind@ == KindV::Compaction(self.summary@, self.first_kept_entry_id),
    {
        SessionEntry::compaction(self.parent_id, self.summary.as_str(), self.first_kept_entry_id)
    }
}

/// A compaction of the active branch: under the active leaf.
pub fn plan_active_branch_compaction(tree: &SessionTree, summary: &str, first_kept_entry_id: Option<u128>) -> (r: AgentCoreResult<CompactionPlan>)
    ensures
        is_blank(summary@) ==> r is Err,
        !is_blank(summary@) ==> (r matches Ok(p) && p.parent_id == tree.active_view() && p.summary@ == summary@
            && p.first_kept_entry_id == first_kept_entry_id),
{
    CompactionPlan::new(tree.active_leaf(), summary, first_kept_entry_id)
}

/// Where session entries are kept, in append order.
pub trait SessionStore {
    fn append(&mut self, entry: SessionEntry) -> AgentCoreResult<()>;

    fn entries(&self) -> &[SessionEntry];
}

/// Each entry can be appended after those before it.
pub open spec fn appends_in_order(es: Seq<EntryV>) -> bool {
    forall|i: int| 0 <= i < es.len() ==> appendable(#[trigger] es.subrange(0, i), es[i])
}

/// The leaf a tree built from `es` in order ends on: the last entry, if any.
pub open spec fn last_leaf(es: Seq<EntryV>) -> Option<u128> {
    if es.len() == 0 {
        None
    } else {
        Some(es.last().id)
    }
}

/// The tree of the entries, appended in order: refused (with the first refusal) unless each
/// entry can be appended after those before it; the tree then holds them all and its active
/// leaf is the last one.
pub fn tree_from_entries(entries: &[SessionEntry]) -> (r: AgentCoreResult<SessionTree>)
    ensures
        r is Ok <==> appends_in_order(entries_view(entries@)),
        r matches Ok(t) ==> t.entries_seq() == entries_view(entries@) && t.active_view() == last_leaf(entries_view(entries@)),
{
    let ghost es = entries_view(entries@);
    let mut tree = SessionTree::new();
    let mut i: usize = 0;
    while i < entries.len()
        invariant
            i <= entries@.len(),
            es == entries_view(entries@),
            tree.entries_seq() == es.subrange(0, i as int),
            tree.active_view() == last_leaf(es.subrange(0, i as int)),
            forall|k: int| 0 <= k < i ==> appendable(#[trigger] es.subrange(0, k), es[k]),
        decreases entries.len() - i,
    {
        proof {
            assert(es.subrange(0, i as int).len() == i);
        }
        match tree.append(entries[i].dup()) {
            Ok(_) => {},
            Err(e) => {
                proof {
                    assert(!appendable(es.subrange(0, i as int), es[i as int]));
                }
                return Err(e);
            },
        }
        proof {
            assert(es.subrange(0, i + 1) =~= es.subrange(0, i as int).push(es[i as int]));
        }
        i += 1;
    }
    proof {
        assert(es.subrange(0, es.len() as int) =~= es);
    }
    Ok(tree)
}

/// The tree of a store's entries, appended in order; the first entry the tree refuses
/// refuses the load (see [`tree_from_entries`]). What the store hands out is its own.
pub fn load_tree<S: SessionStore>(store: &S) -> (r: AgentCoreResult<SessionTree>)
    ensures
        r matches Ok(t) ==> appends_in_order(t.entries_seq()) && t.active_view() == last_leaf(t.entries_seq()),
{
    tree_from_entries(store.entries())
}

/// A store in memory.
#[derive(Debug)]
pub struct InMemorySessionStore {
    entries: Vec<SessionEntry>,
}

impl InMemorySessionStore {
    pub closed spec fn view(&self) -> Seq<EntryV> {
        entries_view(self.entries@)
    }

    pub fn new() -> (r: InMemorySessionStore)
        ensures
            r@ == Seq::<EntryV>::empty(),
    {
        let r = InMemorySessionStore { entries: Vec::new() };
        assert(entries_view(r.entries@) =~= Seq::empty());
        r
    }

    pub fn len(&self) -> (r: usize)
        ensures
            r == self@.len(),
    {
        self.entries.len()
    }

    pub fn is_empty(&self) -> (r: bool)
        ensures
            r == (self@.len() == 0),
    {
        self.entries.len() == 0
    }
}

impl SessionStore for InMemorySessionStore {
    fn append(&mut self, entry: SessionEntry) -> (r: AgentCoreResult<()>)
        ensures
            r is Ok && final(self)@ == old(self)@.push(entry@),
    {
        self.entries.push(entry);
        proof {
            assert(entries_view(self.entries@) =~= entries_view(old(self).entries@).push(entry@));
        }
        Ok(())
    }

    fn entries(&self) -> (r: &[SessionEntry])
        ensures
            entries_view(r@) == self@,
    {
        self.entries.as_slice()
    }
}

} // verus!
