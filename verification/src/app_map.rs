//! A memory of an app's screens: pages seen, the transitions between them and how reliable
//! each has been, with path planning, a local view around a page, search, and forgetting.

use vstd::prelude::*;
use crate::assoc::{assoc_find, assoc_get, assoc_set, assoc_sorted, pairs_view};
use crate::error::{AgentCoreError, AgentCoreResult};
use crate::json::{Json, JsonV};
use crate::text::{join_seq, owned, str_eq};
use vstd::string::StrSliceExecFns;

verus! {

/// What an element of a screen offers, summarized.
#[derive(Clone, Debug, PartialEq, Eq)]
pub struct UiElementSummary {
    pub stable_id: String,
    pub text: String,
    pub description: String,
    pub class_name: String,
    pub clickable: bool,
    pub editable: bool,
    pub dangerous: bool,
    pub bounds: Option<String>,
}

/// A page of an app as last seen.
#[derive(Clone, Debug, PartialEq, Eq)]
pub struct PageNode {
    pub id: String,
    pub package: String,
    pub summary: String,
    pub fingerprint: String,
    pub key_buttons: Vec<UiElementSummary>,
    pub input_fields: Vec<UiElementSummary>,
    pub navigation_entries: Vec<UiElementSummary>,
    pub dangerous_actions: Vec<UiElementSummary>,
    pub visits: usize,
    pub stale: bool,
    pub last_seen_step: usize,
}

/// What kind of step an action is.
#[derive(Clone, Copy, Debug, PartialEq, Eq, Structural)]
pub enum CandidateActionKind {
    ClickText,
    TypeText,
    OpenApp,
    SystemBack,
    Swipe,
    Wait,
}

/// A step that can be taken from a page, as a tool call.
#[derive(Debug, PartialEq)]
pub struct CandidateAction {
    pub id: String,
    pub label: String,
    pub kind: CandidateActionKind,
    pub tool_name: String,
    pub arguments: Json,
    pub from_page: String,
    pub expected_target: Option<String>,
    pub read_only: bool,
    pub dangerous: bool,
}

impl CandidateAction {
    /// The tool call that takes the action, under the call id given.
    pub fn to_tool_call(&self, call_id: &str) -> (r: crate::tool_registry::ToolCall)
        ensures
            r.call_id@ == call_id@ && r.tool_name@ == self.tool_name@ && r.arguments.view() == self.arguments.view()
                && r.metadata@.len() == 0,
    {
        crate::tool_registry::ToolCall::new(call_id, self.tool_name.as_str(), self.arguments.dup())
    }
}

/// A step seen from one page to another, with how often it worked.
#[derive(Debug, PartialEq)]
pub struct PageTransition {
    pub from_page: String,
    pub to_page: String,
    pub action: CandidateAction,
    pub success_count: usize,
    pub failure_count: usize,
    pub stale: bool,
}

/// Whether a transition is the one taken from `from` to `to` by the action `id`.
pub open spec fn same_route(t: PageTransition, from: Seq<char>, to: Seq<char>, id: Seq<char>) -> bool {
    t.from_page@ == from && t.to_page@ == to && t.action.id@ == id
}

/// `a2` is the action `a` routed from `from` to `to`.
pub open spec fn routed(a2: CandidateAction, a: CandidateAction, from: Seq<char>, to: Seq<char>) -> bool {
    &&& a2.id == a.id
    &&& a2.label == a.label
    &&& a2.kind == a.kind
    &&& a2.tool_name == a.tool_name
    &&& a2.arguments == a.arguments
    &&& a2.from_page@ == from
    &&& a2.expected_target matches Some(t) && t@ == to
    &&& a2.read_only == a.read_only
    &&& a2.dangerous == a.dangerous
}

/// A transition turns stale once its failures reach its successes plus two.
pub open spec fn stale_after(success: int, failure: int) -> bool {
    failure >= success + 2
}

fn stale_now(success: usize, failure: usize) -> (r: bool)
    ensures
        r == stale_after(success as int, failure as int),
{
    failure > success && failure - success >= 2
}

/// The pages seen, the transitions between them, where the agent is, and how many
/// observations were made.
#[derive(Debug)]
pub struct AppMapMemory {
    pages: Vec<(String, PageNode)>,
    transitions: Vec<PageTransition>,
    current_page: Option<String>,
    step_counter: usize,
}

/// The value of a page.
pub struct PageV {
    pub id: Seq<char>,
    pub package: Seq<char>,
    pub summary: Seq<char>,
    pub fingerprint: Seq<char>,
    pub key_buttons: Seq<ElementV>,
    pub input_fields: Seq<ElementV>,
    pub navigation_entries: Seq<ElementV>,
    pub dangerous_actions: Seq<ElementV>,
    pub visits: usize,
    pub stale: bool,
    pub last_seen_step: usize,
}

impl View for PageNode {
    type V = PageV;

    open spec fn view(&self) -> PageV {
        PageV {
            id: self.id@,
            package: self.package@,
            summary: self.summary@,
            fingerprint: self.fingerprint@,
            key_buttons: elements_view(self.key_buttons@),
            input_fields: elements_view(self.input_fields@),
            navigation_entries: elements_view(self.navigation_entries@),
            dangerous_actions: elements_view(self.dangerous_actions@),
            visits: self.visits,
            stale: self.stale,
            last_seen_step: self.last_seen_step,
        }
    }
}

impl AppMapMemory {
    /// The pages by id, in id order.
    pub closed spec fn pages_view(&self) -> Seq<(Seq<char>, PageV)> {
        pairs_view(self.pages@)
    }

    pub closed spec fn transitions_view(&self) -> Seq<PageTransition> {
        self.transitions@
    }

    pub closed spec fn current_view(&self) -> Option<Seq<char>> {
        match self.current_page {
            Some(p) => Some(p@),
            None => None,
        }
    }

    pub closed spec fn steps_view(&self) -> usize {
        self.step_counter
    }

    /// Page ids are kept sorted, each once, and each page is stored under its own id.
    pub closed spec fn wf(&self) -> bool {
        &&& assoc_sorted(pairs_view(self.pages@))
        &&& forall|i: int| 0 <= i < self.pages@.len() ==> (#[trigger] self.pages@[i]).1.id@ == self.pages@[i].0@
        &&& forall|i: int| 0 <= i < self.pages@.len() ==> (#[trigger] self.pages@[i]).1.visits <= self.step_counter
    }

    pub fn new() -> (r: AppMapMemory)
        ensures
            r.wf(),
            r.pages_view().len() == 0,
            r.transitions_view().len() == 0,
            r.current_view() is None,
            r.steps_view() == 0,
    {
        let r = AppMapMemory { pages: Vec::new(), transitions: Vec::new(), current_page: None, step_counter: 0 };
        assert(pairs_view(r.pages@) =~= Seq::empty());
        r
    }

    pub fn current_page(&self) -> (r: Option<&str>)
        ensures
            match r {
                Some(p) => self.current_view() == Some(p@),
                None => self.current_view() is None,
            },
    {
        match &self.current_page {
            Some(p) => Some(p.as_str()),
            None => None,
        }
    }

    pub fn page_count(&self) -> (r: usize)
        ensures
            r == self.pages_view().len(),
    {
        self.pages.len()
    }

    pub fn transition_count(&self) -> (r: usize)
        ensures
            r == self.transitions_view().len(),
    {
        self.transitions.len()
    }

    /// The pages, in id order.
    pub fn pages(&self) -> (r: Vec<&PageNode>)
        ensures
            r@.len() == self.pages_view().len(),
            forall|i: int| 0 <= i < r@.len() ==> (#[trigger] r@[i])@ == self.pages_view()[i].1,
    {
        let mut out: Vec<&PageNode> = Vec::new();
        let mut i: usize = 0;
        while i < self.pages.len()
            invariant
                i <= self.pages@.len(),
                out@.len() == i,
                forall|k: int| 0 <= k < i ==> *(#[trigger] out@[k]) == self.pages@[k].1,
            decreases self.pages.len() - i,
        {
            out.push(&self.pages[i].1);
            i += 1;
        }
        out
    }

    pub fn transitions(&self) -> (r: &[PageTransition])
        ensures
            r@ == self.transitions_view(),
    {
        self.transitions.as_slice()
    }

    /// Records that `action` was taken from `from_page` towards `to_page`. The first transition
    /// on the same route with the same action id counts the outcome (a success clears its
    /// staleness; a failure makes it stale once failures reach successes plus two) and takes
    /// the action; otherwise a new transition is added, stale when it failed.
    pub fn record_transition(&mut self, from_page: &str, to_page: &str, action: CandidateAction, success: bool)
        requires
            forall|k: int| 0 <= k < old(self).transitions_view().len() && same_route(#[trigger] old(self).transitions_view()[k], from_page@, to_page@, action.id@)
                ==> old(self).transitions_view()[k].success_count < usize::MAX && old(self).transitions_view()[k].failure_count < usize::MAX,
        ensures
            final(self).pages_view() == old(self).pages_view(),
            final(self).current_view() == old(self).current_view(),
            final(self).steps_view() == old(self).steps_view(),
            final(self).wf() == old(self).wf(),
            (exists|k: int| 0 <= k < old(self).transitions_view().len() && same_route(#[trigger] old(self).transitions_view()[k], from_page@, to_page@, action.id@))
                ==> exists|k: int| #![trigger final(self).transitions_view()[k]] {
                    let t0 = old(self).transitions_view()[k];
                    let t1 = final(self).transitions_view()[k];
                    &&& 0 <= k < old(self).transitions_view().len()
                    &&& same_route(t0, from_page@, to_page@, action.id@)
                    &&& forall|j: int| 0 <= j < k ==> !same_route(#[trigger] old(self).transitions_view()[j], from_page@, to_page@, action.id@)
                    &&& final(self).transitions_view().len() == old(self).transitions_view().len()
                    &&& forall|j: int| 0 <= j < old(self).transitions_view().len() && j != k
                        ==> #[trigger] final(self).transitions_view()[j] == old(self).transitions_view()[j]
                    &&& t1.from_page == t0.from_page && t1.to_page == t0.to_page
                    &&& routed(t1.action, action, from_page@, to_page@)
                    &&& success ==> t1.success_count == t0.success_count + 1 && t1.failure_count == t0.failure_count && !t1.stale
                    &&& !success ==> t1.failure_count == t0.failure_count + 1 && t1.success_count == t0.success_count
                        && t1.stale == stale_after(t1.success_count as int, t1.failure_count as int)
                },
            !(exists|k: int| 0 <= k < old(self).transitions_view().len() && same_route(#[trigger] old(self).transitions_view()[k], from_page@, to_page@, action.id@))
                ==> {
                    let t1 = final(self).transitions_view().last();
                    &&& final(self).transitions_view().len() == old(self).transitions_view().len() + 1
                    &&& final(self).transitions_view().drop_last() == old(self).transitions_view()
                    &&& t1.from_page@ == from_page@ && t1.to_page@ == to_page@
                    &&& routed(t1.action, action, from_page@, to_page@)
                    &&& t1.success_count == (if success { 1usize } else { 0usize })
                    &&& t1.failure_count == (if success { 0usize } else { 1usize })
                    &&& t1.stale == !success
                },
    {
        let ghost t0s = self.transitions@;
        let ghost a0 = action;
        let mut action = action;
        action.from_page = owned(from_page);
        action.expected_target = Some(owned(to_page));
        let mut i: usize = 0;
        while i < self.transitions.len()
            && !(str_eq(self.transitions[i].from_page.as_str(), from_page) && str_eq(self.transitions[i].to_page.as_str(), to_page)
            && str_eq(self.transitions[i].action.id.as_str(), action.id.as_str()))
            invariant
                i <= self.transitions@.len(),
                self.transitions@ == t0s,
                action.id == a0.id,
                forall|j: int| 0 <= j < i ==> !same_route(#[trigger] t0s[j], from_page@, to_page@, a0.id@),
            decreases self.transitions.len() - i,
        {
            i += 1;
        }
        if i < self.transitions.len() {
            proof {
                assert(same_route(old(self).transitions_view()[i as int], from_page@, to_page@, a0.id@));
            }
            let mut transitions: Vec<PageTransition> = Vec::new();
            std::mem::swap(&mut transitions, &mut self.transitions);
            let mut t = transitions.remove(i);
            if success {
                t.success_count = t.success_count + 1;
                t.stale = false;
            } else {
                t.failure_count = t.failure_count + 1;
                t.stale = stale_now(t.success_count, t.failure_count);
            }
            t.action = action;
            transitions.insert(i, t);
            self.transitions = transitions;
            proof {
                assert(same_route(t0s[i as int], from_page@, to_page@, a0.id@));
                assert forall|j: int| 0 <= j < t0s.len() && j != i implies #[trigger] self.transitions@[j] == t0s[j] by {
                }
                assert(self.transitions@[i as int] == t);
            }
            return;
        }
        proof {
            assert(!(exists|k: int| 0 <= k < t0s.len() && same_route(#[trigger] t0s[k], from_page@, to_page@, a0.id@)));
        }
        let s_count: usize = if success { 1 } else { 0 };
        let f_count: usize = if success { 0 } else { 1 };
        self.transitions.push(PageTransition {
            from_page: owned(from_page),
            to_page: owned(to_page),
            action,
            success_count: s_count,
            failure_count: f_count,
            stale: !success,
        });
        assert(self.transitions@.drop_last() =~= t0s);
    }
}


/// The text std's `str::to_lowercase` gives for a string (Unicode lower case).
pub uninterp spec fn lowercase(s: Seq<char>) -> Seq<char>;

/// std `str::to_lowercase`; the contract names its result.
#[verifier::external_body]
pub(crate) fn lowercase_text(s: &str) -> (r: String)
    ensures
        r@ == lowercase(s@),
{
    s.to_lowercase()
}

/// Whether std's `char::is_alphanumeric` holds of a character (Unicode alphabetic or numeric).
pub uninterp spec fn alphanumeric(c: char) -> bool;

/// std `char::is_alphanumeric`; the contract names its result.
#[verifier::external_body]
fn is_alphanumeric_char(c: char) -> (r: bool)
    ensures
        r == alphanumeric(c),
{
    c.is_alphanumeric()
}

/// One or more ASCII digits.
pub open spec fn all_ascii_digits(s: Seq<char>) -> bool {
    s.len() > 0 && forall|i: int| 0 <= i < s.len() ==> '0' <= #[trigger] s[i] <= '9'
}

/// The number that decimal digits write.
pub open spec fn digits_value(s: Seq<char>) -> int
    decreases s.len(),
{
    if s.len() == 0 {
        0
    } else {
        digits_value(s.drop_last()) * 10 + (s.last() as int - '0' as int)
    }
}

/// The number a decimal text writes: an optional `+` (or, where `signed`, `-`) followed by
/// one or more ASCII digits, with nothing else.
pub open spec fn decimal_text_value(s: Seq<char>, signed: bool) -> Option<int> {
    if s.len() > 0 && s[0] == '+' && all_ascii_digits(s.drop_first()) {
        Some(digits_value(s.drop_first()))
    } else if signed && s.len() > 0 && s[0] == '-' && all_ascii_digits(s.drop_first()) {
        Some(-digits_value(s.drop_first()))
    } else if all_ascii_digits(s) {
        Some(digits_value(s))
    } else {
        None
    }
}

/// What std's `str::parse::<i64>` reads from a text: the decimal number it writes, where
/// that is within the range of `i64`.
pub open spec fn parsed_i64(s: Seq<char>) -> Option<i64> {
    match decimal_text_value(s, true) {
        Some(v) => if i64::MIN <= v <= i64::MAX {
            Some(v as i64)
        } else {
            None
        },
        None => None,
    }
}

/// std `str::parse::<i64>`, `ok()`: by the documentation of `i64::from_str_radix`, the text
/// must be an optional `+` or `-` sign followed by only ASCII digits, and the value must fit;
/// the contract states that.
#[verifier::external_body]
fn parse_i64_text(s: &str) -> (r: Option<i64>)
    ensures
        r == parsed_i64(s@),
{
    s.parse::<i64>().ok()
}

/// What std's `str::parse::<usize>` reads from a text: the decimal number it writes, with no
/// `-` sign, where that fits in a `usize`.
pub open spec fn parsed_usize(s: Seq<char>) -> Option<usize> {
    match decimal_text_value(s, false) {
        Some(v) => if v <= usize::MAX {
            Some(v as usize)
        } else {
            None
        },
        None => None,
    }
}

/// std `str::parse::<usize>`, `ok()`: by the documentation of `usize::from_str_radix`, the
/// text must be an optional `+` sign followed by only ASCII digits, and the value must fit;
/// the contract states that.
#[verifier::external_body]
fn parse_usize_text(s: &str) -> (r: Option<usize>)
    ensures
        r == parsed_usize(s@),
{
    s.parse::<usize>().ok()
}

pub open spec fn ascii_alnum(c: char) -> bool {
    ('0' <= c && c <= '9') || ('a' <= c && c <= 'z') || ('A' <= c && c <= 'Z')
}

/// A character of a token: an ASCII letter or digit in lower case, anything else a dash.
pub open spec fn token_char(c: char) -> char {
    if ascii_alnum(c) {
        crate::text::ascii_lower(c)
    } else {
        '-'
    }
}

/// Runs of dashes folded into one.
pub open spec fn collapse_dashes(m: Seq<char>) -> Seq<char>
    decreases m.len(),
{
    if m.len() == 0 {
        m
    } else {
        let c = collapse_dashes(m.drop_last());
        if m.last() == '-' && c.len() > 0 && c.last() == '-' {
            c
        } else {
            c.push(m.last())
        }
    }
}

pub open spec fn trim_dashes_start(s: Seq<char>) -> Seq<char>
    decreases s.len(),
{
    if s.len() > 0 && s[0] == '-' {
        trim_dashes_start(s.drop_first())
    } else {
        s
    }
}

pub open spec fn trim_dashes_end(s: Seq<char>) -> Seq<char>
    decreases s.len(),
{
    if s.len() > 0 && s.last() == '-' {
        trim_dashes_end(s.drop_last())
    } else {
        s
    }
}

/// A text as a token: ASCII letters and digits in lower case, every other run of characters
/// one dash, no dash at either end.
pub open spec fn token_of(s: Seq<char>) -> Seq<char> {
    trim_dashes_end(trim_dashes_start(collapse_dashes(Seq::new(s.len(), |i: int| token_char(s[i])))))
}

fn token_char_of(c: char) -> (r: char)
    ensures
        r == token_char(c),
{
    if ('0' <= c && c <= '9') || ('a' <= c && c <= 'z') {
        c
    } else if 'A' <= c && c <= 'Z' {
        crate::text::char_from_u32_lower(c)
    } else {
        '-'
    }
}

proof fn lemma_trim_start_step(s: Seq<char>, a: int)
    requires
        0 <= a <= s.len(),
        forall|k: int| 0 <= k < a ==> s[k] == '-',
    ensures
        trim_dashes_start(s) == trim_dashes_start(s.subrange(a, s.len() as int)),
    decreases a,
{
    if a > 0 {
        assert(s.drop_first().subrange(a - 1, s.len() - 1) =~= s.subrange(a, s.len() as int));
        lemma_trim_start_step(s.drop_first(), a - 1);
    } else {
        assert(s.subrange(0, s.len() as int) =~= s);
    }
}

proof fn lemma_trim_end_step(s: Seq<char>, b: int)
    requires
        0 <= b <= s.len(),
        forall|k: int| b <= k < s.len() ==> s[k] == '-',
    ensures
        trim_dashes_end(s) == trim_dashes_end(s.subrange(0, b)),
    decreases s.len() - b,
{
    if b < s.len() {
        assert(s.drop_last().subrange(0, b) =~= s.subrange(0, b));
        lemma_trim_end_step(s.drop_last(), b);
    } else {
        assert(s.subrange(0, b) =~= s);
    }
}

/// A text as a token (see [`token_of`]).
pub fn sanitize_token(text: &str) -> (r: String)
    ensures
        r@ == token_of(text@),
{
    let cs = crate::text::chars_of(text);
    let ghost mapped = Seq::new(text@.len(), |i: int| token_char(text@[i]));
    let mut folded: Vec<char> = Vec::new();
    let mut i: usize = 0;
    while i < cs.len()
        invariant
            cs@ == text@,
            i <= cs@.len(),
            mapped == Seq::new(text@.len(), |i: int| token_char(text@[i])),
            folded@ == collapse_dashes(mapped.subrange(0, i as int)),
        decreases cs.len() - i,
    {
        let m = token_char_of(cs[i]);
        proof {
            let sub = mapped.subrange(0, i + 1);
            assert(sub.drop_last() =~= mapped.subrange(0, i as int));
            assert(sub.last() == m);
        }
        let n = folded.len();
        if !(m == '-' && n > 0 && folded[n - 1] == '-') {
            folded.push(m);
        }
        i += 1;
    }
    assert(mapped.subrange(0, mapped.len() as int) =~= mapped);
    let ghost f = folded@;
    let mut a: usize = 0;
    while a < folded.len() && folded[a] == '-'
        invariant
            f == folded@,
            a <= folded@.len(),
            forall|k: int| 0 <= k < a ==> folded@[k] == '-',
        decreases folded.len() - a,
    {
        a += 1;
    }
    proof {
        lemma_trim_start_step(f, a as int);
        if a < f.len() {
            assert(f.subrange(a as int, f.len() as int)[0] != '-');
        } else {
            assert(f.subrange(a as int, f.len() as int).len() == 0);
        }
    }
    let mut b: usize = folded.len();
    while b > a && folded[b - 1] == '-'
        invariant
            f == folded@,
            a <= b <= folded@.len(),
            forall|k: int| b <= k < folded@.len() ==> folded@[k] == '-',
        decreases b,
    {
        b -= 1;
    }
    let ghost g = f.subrange(a as int, f.len() as int);
    proof {
        lemma_trim_end_step(g, b - a);
        assert(g.subrange(0, b - a) =~= f.subrange(a as int, b as int));
    }
    let mut out = String::new();
    let mut k: usize = a;
    while k < b
        invariant
            f == folded@,
            a <= k <= b <= folded@.len(),
            out@ == f.subrange(a as int, k as int),
        decreases b - k,
    {
        crate::text::push_char(&mut out, folded[k]);
        assert(out@ =~= f.subrange(a as int, k + 1));
        k += 1;
    }
    proof {
        let t = f.subrange(a as int, b as int);
        if t.len() > 0 {
            assert(t.last() == f[b - 1]);
        }
        if a < f.len() {
            assert(g[0] == f[a as int]);
        }
        assert(trim_dashes_start(f) == g);
        assert(trim_dashes_end(g) == trim_dashes_end(t));
        assert(trim_dashes_end(t) == t);
    }
    out
}

/// The value of an element summary.
pub struct ElementV {
    pub stable_id: Seq<char>,
    pub text: Seq<char>,
    pub description: Seq<char>,
    pub class_name: Seq<char>,
    pub clickable: bool,
    pub editable: bool,
    pub dangerous: bool,
    pub bounds: Option<Seq<char>>,
}

impl View for UiElementSummary {
    type V = ElementV;

    open spec fn view(&self) -> ElementV {
        ElementV {
            stable_id: self.stable_id@,
            text: self.text@,
            description: self.description@,
            class_name: self.class_name@,
            clickable: self.clickable,
            editable: self.editable,
            dangerous: self.dangerous,
            bounds: crate::message::opt_view(self.bounds),
        }
    }
}

pub open spec fn elements_view(v: Seq<UiElementSummary>) -> Seq<ElementV> {
    Seq::new(v.len(), |i: int| v[i]@)
}

/// The label of an element: its text, trimmed, or else its description, trimmed.
pub open spec fn label_of(e: ElementV) -> Seq<char> {
    if crate::text::trim_seq(e.text).len() > 0 {
        crate::text::trim_seq(e.text)
    } else {
        crate::text::trim_seq(e.description)
    }
}

fn element_label(e: &UiElementSummary) -> (r: String)
    ensures
        r@ == label_of(e@),
{
    let t = crate::text::trim_str(e.text.as_str());
    if t.as_str().is_empty() == false {
        t
    } else {
        crate::text::trim_str(e.description.as_str())
    }
}

/// A label is dangerous when, in lower case, it holds one of the risky words.
pub open spec fn dangerous_label(label: Seq<char>) -> bool {
    let l = lowercase(label);
    ||| crate::text::seq_contains(l, "delete"@)
    ||| crate::text::seq_contains(l, "cancel"@)
    ||| crate::text::seq_contains(l, "remove"@)
    ||| crate::text::seq_contains(l, "logout"@)
    ||| crate::text::seq_contains(l, "sign out"@)
    ||| crate::text::seq_contains(l, "pay"@)
    ||| crate::text::seq_contains(l, "purchase"@)
}

fn is_dangerous_label(label: &str) -> (r: bool)
    ensures
        r == dangerous_label(label@),
{
    let l = lowercase_text(label);
    let l = l.as_str();
    crate::text::str_contains(l, "delete") || crate::text::str_contains(l, "cancel") || crate::text::str_contains(l, "remove")
        || crate::text::str_contains(l, "logout") || crate::text::str_contains(l, "sign out") || crate::text::str_contains(l, "pay")
        || crate::text::str_contains(l, "purchase")
}

/// An element looks like navigation when its lower-case label is one of the usual places, or
/// its class names a tab.
pub open spec fn navigation_like(e: ElementV) -> bool {
    let l = lowercase(label_of(e));
    ||| l == "back"@
    ||| l == "home"@
    ||| l == "orders"@
    ||| l == "account"@
    ||| l == "settings"@
    ||| l == "search"@
    ||| l == "new note"@
    ||| crate::text::seq_contains(lowercase(e.class_name), "tab"@)
}

fn looks_like_navigation(e: &UiElementSummary) -> (r: bool)
    ensures
        r == navigation_like(e@),
{
    let label = element_label(e);
    let l = lowercase_text(label.as_str());
    let l = l.as_str();
    if str_eq(l, "back") || str_eq(l, "home") || str_eq(l, "orders") || str_eq(l, "account") || str_eq(l, "settings")
        || str_eq(l, "search") || str_eq(l, "new note") {
        return true;
    }
    let class = lowercase_text(e.class_name.as_str());
    crate::text::str_contains(class.as_str(), "tab")
}

pub open spec fn bool_text(b: bool) -> Seq<char> {
    if b {
        "true"@
    } else {
        "false"@
    }
}

/// What makes two elements the same for a page: lower-case label, class, and whether it can
/// be clicked or edited.
pub open spec fn signature_of(e: ElementV) -> Seq<char> {
    lowercase(label_of(e)) + "|"@ + e.class_name + "|"@ + bool_text(e.clickable) + "|"@ + bool_text(e.editable)
}

fn element_signature(e: &UiElementSummary) -> (r: String)
    ensures
        r@ == signature_of(e@),
{
    let label = element_label(e);
    let mut r = lowercase_text(label.as_str());
    r.append("|");
    r.append(e.class_name.as_str());
    r.append("|");
    r.append(if e.clickable { "true" } else { "false" });
    r.append("|");
    r.append(if e.editable { "true" } else { "false" });
    r
}

/// The string under `key`, if the value has one there.
pub open spec fn str_field(v: JsonV, key: Seq<char>) -> Option<Seq<char>> {
    match v.get(key) {
        Some(x) => x.as_str(),
        None => None,
    }
}

/// The string under `key`, or under `alt` when `key` is absent.
pub open spec fn str_field_or(v: JsonV, key: Seq<char>, alt: Seq<char>) -> Option<Seq<char>> {
    match v.get(key) {
        Some(x) => x.as_str(),
        None => str_field(v, alt),
    }
}

pub open spec fn text_or_empty(o: Option<Seq<char>>) -> Seq<char> {
    match o {
        Some(s) => s,
        None => Seq::empty(),
    }
}

/// The summary of the element at `index` of a screen's list.
pub open spec fn element_from(v: JsonV, index: nat) -> ElementV {
    let text = crate::text::trim_seq(text_or_empty(str_field(v, "text"@)));
    let description = crate::text::trim_seq(text_or_empty(str_field_or(v, "description"@, "contentDescription"@)));
    let class_name = crate::text::trim_seq(text_or_empty(str_field_or(v, "class"@, "class_name"@)));
    let label = if text.len() == 0 { description } else { text };
    ElementV {
        stable_id: match str_field(v, "id"@) {
            Some(id) => id,
            None => "node:"@ + crate::text::decimal(index) + ":"@ + token_of(label + class_name),
        },
        text,
        description,
        class_name,
        clickable: match v.get("clickable"@) {
            Some(x) => x.as_bool() == Some(true),
            None => false,
        },
        editable: match v.get("editable"@) {
            Some(x) => x.as_bool() == Some(true),
            None => false,
        },
        dangerous: dangerous_label(label),
        bounds: str_field(v, "bounds"@),
    }
}

/// The list of elements of a screen: under "nodes", or else under "elements".
pub open spec fn element_list(ui: JsonV) -> Seq<JsonV> {
    match ui.get("nodes"@) {
        Some(x) => match x.as_array() {
            Some(a) => a,
            None => Seq::empty(),
        },
        None => match ui.get("elements"@) {
            Some(x) => match x.as_array() {
                Some(a) => a,
                None => Seq::empty(),
            },
            None => Seq::empty(),
        },
    }
}

fn str_field_exec(v: &Json, key: &str) -> (r: Option<String>)
    ensures
        crate::message::opt_view(r) == str_field(v.view(), key@),
{
    match v.get(key) {
        Some(x) => match x.as_str() {
            Some(s) => Some(owned(s)),
            None => None,
        },
        None => None,
    }
}

fn str_field_or_exec(v: &Json, key: &str, alt: &str) -> (r: Option<String>)
    ensures
        crate::message::opt_view(r) == str_field_or(v.view(), key@, alt@),
{
    match v.get(key) {
        Some(x) => match x.as_str() {
            Some(s) => Some(owned(s)),
            None => None,
        },
        None => str_field_exec(v, alt),
    }
}

fn trimmed_or_empty(o: Option<String>) -> (r: String)
    ensures
        r@ == crate::text::trim_seq(text_or_empty(crate::message::opt_view(o))),
{
    match o {
        Some(s) => crate::text::trim_str(s.as_str()),
        None => {
            let e = String::new();
            crate::text::trim_str(e.as_str())
        },
    }
}

fn bool_field(v: &Json, key: &str) -> (r: bool)
    ensures
        r == (match v.view().get(key@) {
            Some(x) => x.as_bool() == Some(true),
            None => false,
        }),
{
    match v.get(key) {
        Some(x) => match x.as_bool() {
            Some(b) => b,
            None => false,
        },
        None => false,
    }
}

fn element_from_exec(v: &Json, index: usize) -> (r: UiElementSummary)
    ensures
        r@ == element_from(v.view(), index as nat),
{
    let text = trimmed_or_empty(str_field_exec(v, "text"));
    let description = trimmed_or_empty(str_field_or_exec(v, "description", "contentDescription"));
    let class_name = trimmed_or_empty(str_field_or_exec(v, "class", "class_name"));
    let label = if text.as_str().is_empty() { description.clone() } else { text.clone() };
    let stable_id = match str_field_exec(v, "id") {
        Some(id) => id,
        None => {
            let mut both = label.clone();
            both.append(class_name.as_str());
            let mut id = owned("node:");
            id.append(crate::text::to_decimal(index as u64).as_str());
            id.append(":");
            id.append(sanitize_token(both.as_str()).as_str());
            id
        },
    };
    let dangerous = is_dangerous_label(label.as_str());
    UiElementSummary {
        stable_id,
        text,
        description,
        class_name,
        clickable: bool_field(v, "clickable"),
        editable: bool_field(v, "editable"),
        dangerous,
        bounds: str_field_exec(v, "bounds"),
    }
}

/// The elements of a screen, in order (see [`element_from`]).
fn extract_elements(ui: &Json) -> (r: Vec<UiElementSummary>)
    ensures
        elements_view(r@) == Seq::new(element_list(ui.view()).len(), |i: int| element_from(element_list(ui.view())[i], i as nat)),
{
    let empty: Vec<Json> = Vec::new();
    let list: &Vec<Json> = match ui.get("nodes") {
        Some(x) => match x.as_array() {
            Some(a) => a,
            None => &empty,
        },
        None => match ui.get("elements") {
            Some(x) => match x.as_array() {
                Some(a) => a,
                None => &empty,
            },
            None => &empty,
        },
    };
    assert(crate::json::array_view(empty@) =~= Seq::empty());
    let ghost lv = element_list(ui.view());
    assert(crate::json::array_view(list@) == lv);
    let mut out: Vec<UiElementSummary> = Vec::new();
    let mut i: usize = 0;
    while i < list.len()
        invariant
            i <= list@.len(),
            crate::json::array_view(list@) == lv,
            out@.len() == i,
            forall|k: int| 0 <= k < i ==> (#[trigger] out@[k])@ == element_from(lv[k], k as nat),
        decreases list.len() - i,
    {
        assert(lv[i as int] == list@[i as int].view());
        out.push(element_from_exec(&list[i], i));
        i += 1;
    }
    assert(elements_view(out@) =~= Seq::new(lv.len(), |i: int| element_from(lv[i], i as nat)));
    out
}

/// The first `n` items of `s` (all of them when there are fewer).
pub open spec fn take_at_most<A>(s: Seq<A>, n: nat) -> Seq<A> {
    if s.len() > n {
        s.take(n as int)
    } else {
        s
    }
}

proof fn lemma_take_push<A>(s: Seq<A>, x: A, n: nat)
    ensures
        take_at_most(s.push(x), n) == (if s.len() < n { take_at_most(s, n).push(x) } else { take_at_most(s, n) }),
{
    if s.len() < n {
        assert(take_at_most(s, n) == s);
    } else {
        assert(s.push(x).take(n as int) =~= take_at_most(s, n));
    }
}

/// Whether an element is useful on a page: it can be clicked, edited, is dangerous, looks like
/// navigation, or has a label.
pub open spec fn functional(e: ElementV) -> bool {
    e.clickable || e.editable || e.dangerous || navigation_like(e) || label_of(e).len() > 0
}

pub open spec fn signatures(k: Seq<ElementV>) -> Seq<Seq<char>> {
    Seq::new(k.len(), |i: int| signature_of(k[i]))
}

/// The useful elements, each signature once (the first one kept), in order.
pub open spec fn kept_elements(es: Seq<ElementV>) -> Seq<ElementV>
    decreases es.len(),
{
    if es.len() == 0 {
        Seq::empty()
    } else {
        let k = kept_elements(es.drop_last());
        if functional(es.last()) && !signatures(k).contains(signature_of(es.last())) {
            k.push(es.last())
        } else {
            k
        }
    }
}

/// At most forty of the kept elements.
pub open spec fn functional_elements(es: Seq<ElementV>) -> Seq<ElementV> {
    take_at_most(kept_elements(es), 40)
}

fn filter_functional_elements(elements: Vec<UiElementSummary>) -> (r: Vec<UiElementSummary>)
    ensures
        elements_view(r@) == functional_elements(elements_view(elements@)),
{
    let ghost all = elements_view(elements@);
    let total = elements.len();
    assert(all.len() == total);
    let mut rest = elements;
    let mut kept: Vec<UiElementSummary> = Vec::new();
    let mut sigs: Vec<String> = Vec::new();
    let mut i: usize = 0;
    while rest.len() > 0
        invariant
            i <= all.len(),
            all.len() == total,
            elements_view(rest@) == all.subrange(i as int, all.len() as int),
            elements_view(kept@) == kept_elements(all.subrange(0, i as int)),
            crate::assoc::strings_view(sigs@) == signatures(elements_view(kept@)),
        decreases rest.len(),
    {
        let ghost r0 = rest@;
        proof {
            assert(elements_view(r0).len() == r0.len());
            assert(i < all.len());
            assert(elements_view(r0)[0] == all.subrange(i as int, all.len() as int)[0]);
        }
        let e = rest.remove(0);
        proof {
            assert(e == r0[0]);
            assert(e@ == all[i as int]);
            let sub = all.subrange(0, i + 1);
            assert(sub.drop_last() =~= all.subrange(0, i as int));
            assert(sub.last() == e@);
        }
        let useful = e.clickable || e.editable || e.dangerous || looks_like_navigation(&e) || !element_label(&e).as_str().is_empty();
        let sig = element_signature(&e);
        if useful && !crate::assoc::strings_contain(&sigs, sig.as_str()) {
            let ghost k0 = elements_view(kept@);
            let ghost s0 = crate::assoc::strings_view(sigs@);
            let ghost ev = e@;
            let ghost sv = sig@;
            kept.push(e);
            sigs.push(sig);
            proof {
                assert(elements_view(kept@) =~= k0.push(ev));
                assert(sv == signature_of(ev));
                assert(crate::assoc::strings_view(sigs@) =~= s0.push(sv));
                assert(signatures(k0.push(ev)) =~= signatures(k0).push(signature_of(ev)));
                assert(crate::assoc::strings_view(sigs@) =~= signatures(elements_view(kept@)));
            }
        }
        proof {
            assert(rest@ =~= r0.subrange(1, r0.len() as int));
            assert forall|j: int| 0 <= j < elements_view(rest@).len() implies elements_view(rest@)[j] == all.subrange(i + 1, all.len() as int)[j] by {
                assert(rest@[j] == r0[j + 1]);
                assert(elements_view(r0)[j + 1] == all.subrange(i as int, all.len() as int)[j + 1]);
            }
            assert(elements_view(rest@) =~= all.subrange(i + 1, all.len() as int));
        }
        i += 1;
    }
    assert(all.subrange(0, all.len() as int) =~= all);
    let ghost k = elements_view(kept@);
    kept.truncate(40);
    proof {
        if k.len() > 40 {
            assert(elements_view(kept@) =~= k.take(40));
        } else {
            assert(elements_view(kept@) =~= k);
        }
    }
    kept
}

fn dup_element(e: &UiElementSummary) -> (r: UiElementSummary)
    ensures
        r@ == e@,
{
    UiElementSummary {
        stable_id: e.stable_id.clone(),
        text: e.text.clone(),
        description: e.description.clone(),
        class_name: e.class_name.clone(),
        clickable: e.clickable,
        editable: e.editable,
        dangerous: e.dangerous,
        bounds: crate::message::dup_opt(&e.bounds),
    }
}

/// Which elements a page keeps in each of its lists.
#[derive(Clone, Copy)]
pub enum Pick {
    Button,
    Input,
    Navigation,
    Danger,
}

pub open spec fn picks(e: ElementV, k: Pick) -> bool {
    match k {
        Pick::Button => e.clickable && !e.dangerous,
        Pick::Input => e.editable,
        Pick::Navigation => navigation_like(e),
        Pick::Danger => e.dangerous,
    }
}

/// The elements a pick selects, in order.
pub open spec fn selected(es: Seq<ElementV>, k: Pick) -> Seq<ElementV>
    decreases es.len(),
{
    if es.len() == 0 {
        Seq::empty()
    } else if picks(es.last(), k) {
        selected(es.drop_last(), k).push(es.last())
    } else {
        selected(es.drop_last(), k)
    }
}

/// The non-empty labels of the elements a pick selects, in order.
pub open spec fn selected_labels(es: Seq<ElementV>, k: Pick) -> Seq<Seq<char>>
    decreases es.len(),
{
    if es.len() == 0 {
        Seq::empty()
    } else if picks(es.last(), k) && label_of(es.last()).len() > 0 {
        selected_labels(es.drop_last(), k).push(label_of(es.last()))
    } else {
        selected_labels(es.drop_last(), k)
    }
}

fn picks_exec(e: &UiElementSummary, k: Pick) -> (r: bool)
    ensures
        r == picks(e@, k),
{
    match k {
        Pick::Button => e.clickable && !e.dangerous,
        Pick::Input => e.editable,
        Pick::Navigation => looks_like_navigation(e),
        Pick::Danger => e.dangerous,
    }
}

/// The first `n` elements a pick selects.
fn select_elements(es: &Vec<UiElementSummary>, k: Pick, n: usize) -> (r: Vec<UiElementSummary>)
    ensures
        elements_view(r@) == take_at_most(selected(elements_view(es@), k), n as nat),
{
    let ghost all = elements_view(es@);
    let mut out: Vec<UiElementSummary> = Vec::new();
    let mut i: usize = 0;
    while i < es.len()
        invariant
            i <= es@.len(),
            all == elements_view(es@),
            elements_view(out@) == take_at_most(selected(all.subrange(0, i as int), k), n as nat),
        decreases es.len() - i,
    {
        let ghost sub = all.subrange(0, i + 1);
        proof {
            assert(sub.drop_last() =~= all.subrange(0, i as int));
            assert(sub.last() == es@[i as int]@);
            lemma_take_push(selected(all.subrange(0, i as int), k), es@[i as int]@, n as nat);
        }
        if picks_exec(&es[i], k) {
            if out.len() < n {
                let ghost o0 = elements_view(out@);
                out.push(dup_element(&es[i]));
                assert(elements_view(out@) =~= o0.push(es@[i as int]@));
            }
        }
        i += 1;
    }
    assert(all.subrange(0, all.len() as int) =~= all);
    out
}

/// The first `n` non-empty labels of the elements a pick selects.
fn select_labels(es: &Vec<UiElementSummary>, k: Pick, n: usize) -> (r: Vec<String>)
    ensures
        views_of_strings(r@) == take_at_most(selected_labels(elements_view(es@), k), n as nat),
{
    let ghost all = elements_view(es@);
    let mut out: Vec<String> = Vec::new();
    let mut i: usize = 0;
    while i < es.len()
        invariant
            i <= es@.len(),
            all == elements_view(es@),
            views_of_strings(out@) == take_at_most(selected_labels(all.subrange(0, i as int), k), n as nat),
        decreases es.len() - i,
    {
        let ghost sub = all.subrange(0, i + 1);
        proof {
            assert(sub.drop_last() =~= all.subrange(0, i as int));
            assert(sub.last() == es@[i as int]@);
        }
        if picks_exec(&es[i], k) {
            let label = element_label(&es[i]);
            if !label.as_str().is_empty() {
                proof {
                    lemma_take_push(selected_labels(all.subrange(0, i as int), k), label@, n as nat);
                }
                if out.len() < n {
                    let ghost o0 = views_of_strings(out@);
                    out.push(label);
                    assert(views_of_strings(out@) =~= o0.push(label_of(es@[i as int]@)));
                }
            }
        }
        i += 1;
    }
    assert(all.subrange(0, all.len() as int) =~= all);
    out
}

pub open spec fn views_of_strings(v: Seq<String>) -> Seq<Seq<char>> {
    Seq::new(v.len(), |i: int| v[i]@)
}

/// The tokens of the non-empty labels, in order.
pub open spec fn label_tokens(es: Seq<ElementV>) -> Seq<Seq<char>>
    decreases es.len(),
{
    if es.len() == 0 {
        Seq::empty()
    } else if label_of(es.last()).len() > 0 {
        label_tokens(es.drop_last()).push(token_of(label_of(es.last())))
    } else {
        label_tokens(es.drop_last())
    }
}

/// The strictly increasing list with the same members as `s`.
pub open spec fn sorted_unique(s: Seq<Seq<char>>) -> Seq<Seq<char>> {
    choose|t: Seq<Seq<char>>| crate::assoc::set_sorted(t) && t.to_set() == s.to_set()
}

proof fn lemma_sorted_drop_first_set(s: Seq<Seq<char>>)
    requires
        crate::assoc::set_sorted(s),
        s.len() > 0,
    ensures
        s.drop_first().to_set() == s.to_set().remove(s[0]),
{
    assert forall|x: Seq<char>| s.drop_first().to_set().contains(x) <==> s.to_set().remove(s[0]).contains(x) by {
        if s.drop_first().to_set().contains(x) {
            let k = choose|k: int| 0 <= k < s.drop_first().len() && s.drop_first()[k] == x;
            assert(s[k + 1] == x);
            assert(crate::text::seq_lt(s[0], s[k + 1]));
            if x == s[0] {
                crate::text::lemma_seq_lt_irrefl(x);
            }
            assert(s.contains(x));
        }
        if s.to_set().remove(s[0]).contains(x) {
            assert(s.contains(x));
            let k = choose|k: int| 0 <= k < s.len() && s[k] == x;
            assert(k != 0);
            assert(s.drop_first()[k - 1] == x);
        }
    }
    assert(s.drop_first().to_set() =~= s.to_set().remove(s[0]));
}

/// A strictly increasing list is fixed by its members.
proof fn lemma_sorted_set_unique(a: Seq<Seq<char>>, b: Seq<Seq<char>>)
    requires
        crate::assoc::set_sorted(a),
        crate::assoc::set_sorted(b),
        a.to_set() == b.to_set(),
    ensures
        a == b,
    decreases a.len(),
{
    if a.len() == 0 {
        if b.len() > 0 {
            assert(b.to_set().contains(b[0]));
            assert(a.to_set().contains(b[0]));
        }
        assert(a =~= b);
    } else {
        assert(a.to_set().contains(a[0]));
        assert(b.to_set().contains(a[0]));
        let j = choose|j: int| 0 <= j < b.len() && b[j] == a[0];
        assert(b.to_set().contains(b[0]));
        assert(a.to_set().contains(b[0]));
        let i = choose|i: int| 0 <= i < a.len() && a[i] == b[0];
        if j > 0 {
            assert(crate::text::seq_lt(b[0], b[j]));
            if i > 0 {
                assert(crate::text::seq_lt(a[0], a[i]));
                crate::text::lemma_seq_lt_trans(b[0], a[0], b[0]);
            }
            crate::text::lemma_seq_lt_irrefl(b[0]);
        }
        assert(a[0] == b[0]);
        lemma_sorted_drop_first_set(a);
        lemma_sorted_drop_first_set(b);
        lemma_sorted_set_unique(a.drop_first(), b.drop_first());
        assert(a =~= b) by {
            assert forall|k: int| 0 <= k < a.len() implies a[k] == b[k] by {
                if k > 0 {
                    assert(a.drop_first()[k - 1] == b.drop_first()[k - 1]);
                }
            }
        }
    }
}

/// A page's fingerprint: its package and the sorted distinct tokens of the first twelve
/// labels, as one token.
pub open spec fn fingerprint_of(package: Seq<char>, es: Seq<ElementV>) -> Seq<char> {
    token_of(package + ":"@ + join_seq(sorted_unique(take_at_most(label_tokens(es), 12)), "|"@))
}

fn page_fingerprint(package: &str, elements: &Vec<UiElementSummary>) -> (r: String)
    ensures
        r@ == fingerprint_of(package@, elements_view(elements@)),
{
    let ghost all = elements_view(elements@);
    let mut tokens: Vec<String> = Vec::new();
    let mut i: usize = 0;
    while i < elements.len()
        invariant
            i <= elements@.len(),
            all == elements_view(elements@),
            views_of_strings(tokens@) == take_at_most(label_tokens(all.subrange(0, i as int)), 12),
        decreases elements.len() - i,
    {
        let ghost sub = all.subrange(0, i + 1);
        proof {
            assert(sub.drop_last() =~= all.subrange(0, i as int));
            assert(sub.last() == elements@[i as int]@);
        }
        let label = element_label(&elements[i]);
        if !label.as_str().is_empty() {
            let t = sanitize_token(label.as_str());
            proof {
                lemma_take_push(label_tokens(all.subrange(0, i as int)), t@, 12);
            }
            if tokens.len() < 12 {
                let ghost o0 = views_of_strings(tokens@);
                tokens.push(t);
                assert(views_of_strings(tokens@) =~= o0.push(token_of(label_of(elements@[i as int]@))));
            }
        }
        i += 1;
    }
    assert(all.subrange(0, all.len() as int) =~= all);
    let ghost labels = views_of_strings(tokens@);
    let mut set: Vec<String> = Vec::new();
    let mut k: usize = 0;
    proof {
        assert(crate::assoc::strings_view(set@) =~= Seq::empty());
        assert(crate::assoc::set_sorted(crate::assoc::strings_view(set@)));
    }
    while k < tokens.len()
        invariant
            k <= tokens@.len(),
            labels == views_of_strings(tokens@),
            crate::assoc::set_sorted(crate::assoc::strings_view(set@)),
            crate::assoc::strings_view(set@).to_set() == labels.subrange(0, k as int).to_set(),
        decreases tokens.len() - k,
    {
        crate::assoc::set_add(&mut set, tokens[k].as_str());
        proof {
            assert(labels.subrange(0, k + 1) =~= labels.subrange(0, k as int).push(labels[k as int]));
            assert(labels.subrange(0, k as int).push(labels[k as int]).to_set() =~= labels.subrange(0, k as int).to_set().insert(labels[k as int])) by {
                let p = labels.subrange(0, k as int);
                assert forall|x: Seq<char>| p.push(labels[k as int]).to_set().contains(x) <==> p.to_set().insert(labels[k as int]).contains(x) by {
                    if p.push(labels[k as int]).contains(x) {
                        let j = choose|j: int| 0 <= j < p.len() + 1 && p.push(labels[k as int])[j] == x;
                        if j < p.len() {
                            assert(p[j] == x);
                        }
                    }
                    if p.contains(x) {
                        let j = choose|j: int| 0 <= j < p.len() && p[j] == x;
                        assert(p.push(labels[k as int])[j] == x);
                    }
                    if x == labels[k as int] {
                        assert(p.push(labels[k as int])[p.len() as int] == x);
                    }
                }
            }
        }
        k += 1;
    }
    proof {
        assert(labels.subrange(0, labels.len() as int) =~= labels);
        let t = crate::assoc::strings_view(set@);
        assert(crate::assoc::set_sorted(t) && t.to_set() == labels.to_set());
        let c = sorted_unique(labels);
        lemma_sorted_set_unique(t, c);
        assert(views_of_strings(set@) =~= t);
    }
    let joined = join_strings_sep(&set, "|");
    let mut whole = owned(package);
    whole.append(":");
    whole.append(joined.as_str());
    sanitize_token(whole.as_str())
}

fn join_strings_sep(parts: &Vec<String>, sep: &str) -> (r: String)
    ensures
        r@ == join_seq(views_of_strings(parts@), sep@),
{
    let r = crate::text::join_strings(parts, sep);
    assert(crate::text::views_of(parts@) =~= views_of_strings(parts@));
    r
}

/// A page's summary line: its package, the task hint, and the labels of its buttons, inputs
/// and dangerous actions.
pub open spec fn summary_of(package: Seq<char>, es: Seq<ElementV>, hint: Option<Seq<char>>) -> Seq<char> {
    "package="@ + package + "; task_hint="@ + text_or_empty(hint)
        + "; buttons=["@ + join_seq(take_at_most(selected_labels(es, Pick::Button), 6), ", "@)
        + "]; inputs=["@ + join_seq(take_at_most(selected_labels(es, Pick::Input), 4), ", "@)
        + "]; dangerous=["@ + join_seq(take_at_most(selected_labels(es, Pick::Danger), 4), ", "@) + "]"@
}

fn page_summary(package: &str, elements: &Vec<UiElementSummary>, task_hint: Option<&str>) -> (r: String)
    ensures
        r@ == summary_of(package@, elements_view(elements@), match task_hint {
            Some(h) => Some(h@),
            None => None,
        }),
{
    let buttons = select_labels(elements, Pick::Button, 6);
    let inputs = select_labels(elements, Pick::Input, 4);
    let dangerous = select_labels(elements, Pick::Danger, 4);
    let mut r = owned("package=");
    r.append(package);
    r.append("; task_hint=");
    match task_hint {
        Some(h) => r.append(h),
        None => {},
    }
    r.append("; buttons=[");
    r.append(join_strings_sep(&buttons, ", ").as_str());
    r.append("]; inputs=[");
    r.append(join_strings_sep(&inputs, ", ").as_str());
    r.append("]; dangerous=[");
    r.append(join_strings_sep(&dangerous, ", ").as_str());
    r.append("]");
    proof {
        let e: Seq<char> = Seq::empty();
        assert(e + "; buttons=["@ =~= "; buttons=["@);
    }
    r
}

/// The value of a candidate action.
pub struct ActionV {
    pub id: Seq<char>,
    pub label: Seq<char>,
    pub kind: CandidateActionKind,
    pub tool_name: Seq<char>,
    pub arguments: JsonV,
    pub from_page: Seq<char>,
    pub expected_target: Option<Seq<char>>,
    pub read_only: bool,
    pub dangerous: bool,
}

impl View for CandidateAction {
    type V = ActionV;

    open spec fn view(&self) -> ActionV {
        ActionV {
            id: self.id@,
            label: self.label@,
            kind: self.kind,
            tool_name: self.tool_name@,
            arguments: self.arguments.view(),
            from_page: self.from_page@,
            expected_target: crate::message::opt_view(self.expected_target),
            read_only: self.read_only,
            dangerous: self.dangerous,
        }
    }
}

pub open spec fn actions_view(v: Seq<CandidateAction>) -> Seq<ActionV> {
    Seq::new(v.len(), |i: int| v[i]@)
}

/// A character that separates the numbers of a bounds text: anything but a digit or a dash.
pub open spec fn bounds_sep(c: char) -> bool {
    !(('0' <= c && c <= '9') || c == '-')
}

/// The finished runs of non-separators, and the run in progress.
pub open spec fn split_runs(s: Seq<char>) -> (Seq<Seq<char>>, Seq<char>)
    decreases s.len(),
{
    if s.len() == 0 {
        (Seq::empty(), Seq::empty())
    } else {
        let (ps, cur) = split_runs(s.drop_last());
        if bounds_sep(s.last()) {
            if cur.len() > 0 {
                (ps.push(cur), Seq::empty())
            } else {
                (ps, Seq::empty())
            }
        } else {
            (ps, cur.push(s.last()))
        }
    }
}

/// The non-empty pieces of a bounds text between separators.
pub open spec fn number_parts(s: Seq<char>) -> Seq<Seq<char>> {
    let (ps, cur) = split_runs(s);
    if cur.len() > 0 {
        ps.push(cur)
    } else {
        ps
    }
}

/// The pieces that read as numbers, read.
pub open spec fn parsed_numbers(parts: Seq<Seq<char>>) -> Seq<i64>
    decreases parts.len(),
{
    if parts.len() == 0 {
        Seq::empty()
    } else {
        match parsed_i64(parts.last()) {
            Some(n) => parsed_numbers(parts.drop_last()).push(n),
            None => parsed_numbers(parts.drop_last()),
        }
    }
}

/// Half of a number, rounded toward zero.
pub open spec fn half_toward_zero(x: int) -> int {
    if x >= 0 {
        x / 2
    } else {
        -((-x) / 2)
    }
}

/// The center of bounds given as four numbers (left, top, right, bottom).
pub open spec fn bounds_center_of(bounds: Option<Seq<char>>) -> Option<(int, int)> {
    match bounds {
        None => None,
        Some(b) => {
            let ns = parsed_numbers(number_parts(b));
            if ns.len() != 4 {
                None
            } else {
                Some((half_toward_zero(ns[0] + ns[2]), half_toward_zero(ns[1] + ns[3])))
            }
        },
    }
}

fn half_of_sum(a: i64, b: i64) -> (r: i64)
    ensures
        r as int == half_toward_zero(a + b),
{
    let s: i128 = a as i128 + b as i128;
    let h: i128 = if s >= 0 { s / 2 } else { -((-s) / 2) };
    assert(-0x8000_0000_0000_0000 <= h <= 0x7fff_ffff_ffff_ffff);
    h as i64
}

fn bounds_center(bounds: &Option<String>) -> (r: Option<(i64, i64)>)
    ensures
        match r {
            Some((x, y)) => bounds_center_of(crate::message::opt_view(*bounds)) == Some((x as int, y as int)),
            None => bounds_center_of(crate::message::opt_view(*bounds)) is None,
        },
{
    let b = match bounds {
        Some(b) => b,
        None => return None,
    };
    let cs = crate::text::chars_of(b.as_str());
    let mut parts: Vec<String> = Vec::new();
    let mut cur = String::new();
    let mut i: usize = 0;
    while i < cs.len()
        invariant
            cs@ == b@,
            i <= cs@.len(),
            (views_of_strings(parts@), cur@) == split_runs(b@.subrange(0, i as int)),
        decreases cs.len() - i,
    {
        let c = cs[i];
        proof {
            let sub = b@.subrange(0, i + 1);
            assert(sub.drop_last() =~= b@.subrange(0, i as int));
            assert(sub.last() == c);
        }
        if !(('0' <= c && c <= '9') || c == '-') {
            if !cur.as_str().is_empty() {
                let ghost p0 = views_of_strings(parts@);
                let ghost c0 = cur@;
                let mut done = String::new();
                std::mem::swap(&mut done, &mut cur);
                parts.push(done);
                assert(views_of_strings(parts@) =~= p0.push(c0));
                assert(cur@ =~= Seq::<char>::empty());
            } else {
                cur = String::new();
                assert(cur@ =~= Seq::<char>::empty());
            }
        } else {
            crate::text::push_char(&mut cur, c);
        }
        i += 1;
    }
    assert(b@.subrange(0, b@.len() as int) =~= b@);
    if !cur.as_str().is_empty() {
        let ghost p0 = views_of_strings(parts@);
        let ghost c0 = cur@;
        parts.push(cur);
        assert(views_of_strings(parts@) =~= p0.push(c0));
    }
    let ghost pv = views_of_strings(parts@);
    assert(pv == number_parts(b@));
    let mut numbers: Vec<i64> = Vec::new();
    let mut k: usize = 0;
    while k < parts.len()
        invariant
            k <= parts@.len(),
            pv == views_of_strings(parts@),
            numbers@ == parsed_numbers(pv.subrange(0, k as int)),
        decreases parts.len() - k,
    {
        proof {
            let sub = pv.subrange(0, k + 1);
            assert(sub.drop_last() =~= pv.subrange(0, k as int));
            assert(sub.last() == parts@[k as int]@);
        }
        match parse_i64_text(parts[k].as_str()) {
            Some(n) => numbers.push(n),
            None => {},
        }
        k += 1;
    }
    assert(pv.subrange(0, pv.len() as int) =~= pv);
    if numbers.len() != 4 {
        return None;
    }
    Some((half_of_sum(numbers[0], numbers[2]), half_of_sum(numbers[1], numbers[3])))
}

/// Where the first colon of a text stands, if it has one.
pub open spec fn first_colon(s: Seq<char>) -> Option<int> {
    if exists|i: int| 0 <= i < s.len() && s[i] == ':' {
        Some(choose|i: int| 0 <= i < s.len() && s[i] == ':' && forall|j: int| 0 <= j < i ==> s[j] != ':')
    } else {
        None
    }
}

/// The second colon-separated field of a text, if it has a colon.
pub open spec fn second_field(s: Seq<char>) -> Option<Seq<char>> {
    match first_colon(s) {
        None => None,
        Some(i) => {
            let rest = s.subrange(i + 1, s.len() as int);
            match first_colon(rest) {
                Some(j) => Some(rest.subrange(0, j)),
                None => Some(rest),
            }
        },
    }
}

/// The index an element's id carries in its second field, 0 when it carries none.
pub open spec fn element_index_of(stable_id: Seq<char>) -> nat {
    match second_field(stable_id) {
        Some(f) => match parsed_usize(f) {
            Some(n) => n as nat,
            None => 0,
        },
        None => 0,
    }
}

/// Where the first colon of `cs` at or after `from` stands, or the length.
fn colon_from(cs: &Vec<char>, from: usize) -> (r: usize)
    requires
        from <= cs@.len(),
    ensures
        from <= r <= cs@.len(),
        forall|j: int| from <= j < r ==> cs@[j] != ':',
        r < cs@.len() ==> cs@[r as int] == ':',
{
    let mut i = from;
    while i < cs.len() && cs[i] != ':'
        invariant
            from <= i <= cs@.len(),
            forall|j: int| from <= j < i ==> cs@[j] != ':',
        decreases cs.len() - i,
    {
        i += 1;
    }
    i
}

proof fn lemma_first_colon(s: Seq<char>, i: int)
    requires
        0 <= i <= s.len(),
        forall|j: int| 0 <= j < i ==> s[j] != ':',
        i < s.len() ==> s[i] == ':',
    ensures
        first_colon(s) == (if i < s.len() { Some(i) } else { None }),
{
    if i < s.len() {
        let k = choose|k: int| 0 <= k < s.len() && s[k] == ':' && forall|j: int| 0 <= j < k ==> s[j] != ':';
        if k < i {
        } else if k > i {
            assert(s[i] != ':');
        }
    } else {
        assert(!(exists|k: int| 0 <= k < s.len() && s[k] == ':'));
    }
}

fn element_index(stable_id: &str) -> (r: usize)
    ensures
        r as nat == element_index_of(stable_id@),
{
    let cs = crate::text::chars_of(stable_id);
    let i = colon_from(&cs, 0);
    proof {
        lemma_first_colon(stable_id@, i as int);
    }
    if i >= cs.len() {
        return 0;
    }
    let j = colon_from(&cs, i + 1);
    let ghost rest = stable_id@.subrange(i + 1, stable_id@.len() as int);
    proof {
        assert forall|q: int| 0 <= q < j - (i + 1) implies rest[q] != ':' by {
            assert(rest[q] == cs@[q + i + 1]);
        }
        if j < cs.len() {
            assert(rest[j - (i + 1)] == cs@[j as int]);
        }
        lemma_first_colon(rest, j - (i + 1));
    }
    let mut field = String::new();
    let mut k: usize = i + 1;
    while k < j
        invariant
            cs@ == stable_id@,
            i + 1 <= k <= j <= cs@.len(),
            field@ == stable_id@.subrange(i + 1, k as int),
        decreases j - k,
    {
        crate::text::push_char(&mut field, cs[k]);
        assert(field@ =~= stable_id@.subrange(i + 1, k + 1));
        k += 1;
    }
    proof {
        if j < cs.len() {
            assert(field@ =~= rest.subrange(0, j - (i + 1)));
        } else {
            assert(field@ =~= rest);
        }
    }
    match parse_usize_text(field.as_str()) {
        Some(n) => n,
        None => 0,
    }
}

/// A JSON number for an `i64`, as serde_json holds one.
pub open spec fn i64_json(x: i64) -> JsonV {
    if x < 0 {
        JsonV::Number(crate::json::NumV::NegInt(x))
    } else {
        JsonV::Number(crate::json::NumV::PosInt(x as u64))
    }
}

fn i64_value(x: i64) -> (r: Json)
    ensures
        r.view() == i64_json(x),
{
    if x < 0 {
        Json::Number(crate::json::JsonNumber::NegInt(x))
    } else {
        Json::Number(crate::json::JsonNumber::PosInt(x as u64))
    }
}

pub open spec fn u64_json(x: u64) -> JsonV {
    JsonV::Number(crate::json::NumV::PosInt(x))
}

/// The actions an element offers from a page: nothing when it has no label or is dangerous;
/// a click (at its center when its bounds give one, else by index) when clickable; typing the
/// task's text when editable.
pub open spec fn element_actions(page_id: Seq<char>, e: ElementV) -> Seq<ActionV> {
    let label = label_of(e);
    if label.len() == 0 || e.dangerous {
        Seq::empty()
    } else {
        let index = u64_json(element_index_of(e.stable_id) as u64);
        let click = ActionV {
            id: "click:"@ + token_of(label),
            label,
            kind: CandidateActionKind::ClickText,
            tool_name: match bounds_center_of(e.bounds) {
                Some(_) => "click_at"@,
                None => "click"@,
            },
            arguments: match bounds_center_of(e.bounds) {
                Some((x, y)) => crate::json::empty_object().with("x"@, i64_json(x as i64)).with("y"@, i64_json(y as i64)),
                None => crate::json::empty_object().with("index"@, index),
            },
            from_page: page_id,
            expected_target: None,
            read_only: false,
            dangerous: false,
        };
        let typing = ActionV {
            id: "type:"@ + token_of(label),
            label,
            kind: CandidateActionKind::TypeText,
            tool_name: "type"@,
            arguments: crate::json::empty_object().with("text"@, JsonV::Str("<task_text>"@)).with("index"@, index),
            from_page: page_id,
            expected_target: None,
            read_only: false,
            dangerous: false,
        };
        (if e.clickable { seq![click] } else { Seq::empty() }) + (if e.editable { seq![typing] } else { Seq::empty() })
    }
}

pub open spec fn elements_actions(page_id: Seq<char>, es: Seq<ElementV>) -> Seq<ActionV>
    decreases es.len(),
{
    if es.len() == 0 {
        Seq::empty()
    } else {
        elements_actions(page_id, es.drop_last()) + element_actions(page_id, es.last())
    }
}

/// The system back action from a page.
pub open spec fn back_action(page_id: Seq<char>) -> ActionV {
    ActionV {
        id: "system:back"@,
        label: "Back"@,
        kind: CandidateActionKind::SystemBack,
        tool_name: "system_button"@,
        arguments: crate::json::empty_object().with("button"@, JsonV::Str("back"@)),
        from_page: page_id,
        expected_target: None,
        read_only: false,
        dangerous: false,
    }
}

/// The actions from a page: those of its elements, in order, then the system back action.
pub open spec fn candidate_actions_of(page_id: Seq<char>, es: Seq<ElementV>) -> Seq<ActionV> {
    elements_actions(page_id, es).push(back_action(page_id))
}

fn new_action(
    id: String,
    label: String,
    kind: CandidateActionKind,
    tool_name: &str,
    arguments: Json,
    page_id: &str,
) -> (r: CandidateAction)
    ensures
        r@ == (ActionV {
            id: id@,
            label: label@,
            kind,
            tool_name: tool_name@,
            arguments: arguments.view(),
            from_page: page_id@,
            expected_target: None,
            read_only: false,
            dangerous: false,
        }),
{
    CandidateAction {
        id,
        label,
        kind,
        tool_name: owned(tool_name),
        arguments,
        from_page: owned(page_id),
        expected_target: None,
        read_only: false,
        dangerous: false,
    }
}

/// The actions from a page (see [`candidate_actions_of`]).
fn build_candidate_actions(page_id: &str, elements: &Vec<UiElementSummary>) -> (r: Vec<CandidateAction>)
    ensures
        actions_view(r@) == candidate_actions_of(page_id@, elements_view(elements@)),
{
    let ghost all = elements_view(elements@);
    let mut out: Vec<CandidateAction> = Vec::new();
    let mut i: usize = 0;
    while i < elements.len()
        invariant
            i <= elements@.len(),
            all == elements_view(elements@),
            actions_view(out@) == elements_actions(page_id@, all.subrange(0, i as int)),
        decreases elements.len() - i,
    {
        let e = &elements[i];
        let ghost ev = e@;
        let ghost before = actions_view(out@);
        proof {
            let sub = all.subrange(0, i + 1);
            assert(sub.drop_last() =~= all.subrange(0, i as int));
            assert(sub.last() == ev);
        }
        let label = element_label(e);
        if !label.as_str().is_empty() && !e.dangerous {
            let token = sanitize_token(label.as_str());
            let index = element_index(e.stable_id.as_str());
            let ghost acts = element_actions(page_id@, ev);
            if e.clickable {
                let (tool, arguments) = match bounds_center(&e.bounds) {
                    Some((x, y)) => {
                        let mut a = Json::new_object();
                        a.set("x", i64_value(x));
                        a.set("y", i64_value(y));
                        ("click_at", a)
                    },
                    None => {
                        let mut a = Json::new_object();
                        a.set("index", Json::Number(crate::json::JsonNumber::PosInt(index as u64)));
                        ("click", a)
                    },
                };
                let mut id = owned("click:");
                id.append(token.as_str());
                let l = label.clone();
                out.push(new_action(id, l, CandidateActionKind::ClickText, tool, arguments, page_id));
            }
            if e.editable {
                let mut a = Json::new_object();
                a.set("text", Json::str_of("<task_text>"));
                a.set("index", Json::Number(crate::json::JsonNumber::PosInt(index as u64)));
                let mut id = owned("type:");
                id.append(token.as_str());
                let l = label.clone();
                out.push(new_action(id, l, CandidateActionKind::TypeText, "type", a, page_id));
            }
            proof {
                assert(actions_view(out@) =~= before + acts);
            }
        } else {
            proof {
                assert(element_actions(page_id@, ev) =~= Seq::<ActionV>::empty());
                assert(before + element_actions(page_id@, ev) =~= before);
            }
        }
        i += 1;
    }
    assert(all.subrange(0, all.len() as int) =~= all);
    let ghost before = actions_view(out@);
    let mut a = Json::new_object();
    a.set("button", Json::str_of("back"));
    out.push(new_action(owned("system:back"), owned("Back"), CandidateActionKind::SystemBack, "system_button", a, page_id));
    assert(actions_view(out@) =~= before.push(back_action(page_id@)));
    out
}

/// What an observation records about a page.
#[derive(Debug)]
pub struct MapUpdate {
    pub page_id: String,
    pub created: bool,
    pub replaced_stale_node: bool,
    pub candidate_actions: Vec<CandidateAction>,
}

/// Every entry of a map after setting a key is the new entry or an old one.
proof fn lemma_assoc_insert_members<V>(s: Seq<(Seq<char>, V)>, key: Seq<char>, value: V)
    ensures
        forall|i: int| 0 <= i < crate::assoc::assoc_insert(s, key, value).len()
            ==> #[trigger] crate::assoc::assoc_insert(s, key, value)[i] == (key, value)
                || s.contains(crate::assoc::assoc_insert(s, key, value)[i]),
    decreases s.len(),
{
    let r = crate::assoc::assoc_insert(s, key, value);
    if s.len() > 0 {
        if s[0].0 == key {
            assert forall|i: int| 0 <= i < r.len() implies #[trigger] r[i] == (key, value) || s.contains(r[i]) by {
                if i > 0 {
                    assert(r[i] == s[i]);
                }
            }
        } else if crate::text::seq_lt(key, s[0].0) {
            assert forall|i: int| 0 <= i < r.len() implies #[trigger] r[i] == (key, value) || s.contains(r[i]) by {
                if i > 0 {
                    assert(r[i] == s[i - 1]);
                }
            }
        } else {
            lemma_assoc_insert_members(s.drop_first(), key, value);
            let t = crate::assoc::assoc_insert(s.drop_first(), key, value);
            assert forall|i: int| 0 <= i < r.len() implies #[trigger] r[i] == (key, value) || s.contains(r[i]) by {
                if i == 0 {
                    assert(r[0] == s[0]);
                } else {
                    assert(r[i] == t[i - 1]);
                    if t[i - 1] != (key, value) {
                        let k = choose|k: int| 0 <= k < s.drop_first().len() && s.drop_first()[k] == t[i - 1];
                        assert(s[k + 1] == t[i - 1]);
                    }
                }
            }
        }
    }
}

/// The page an observation of `ui` records under `id`, given what was stored under `id`.
pub open spec fn observed_page(
    id: Seq<char>,
    package: Seq<char>,
    f: Seq<ElementV>,
    hint: Option<Seq<char>>,
    previous: Option<PageV>,
    step: usize,
) -> PageV {
    PageV {
        id,
        package,
        summary: summary_of(package, f, hint),
        fingerprint: fingerprint_of(package, f),
        key_buttons: take_at_most(selected(f, Pick::Button), 8),
        input_fields: take_at_most(selected(f, Pick::Input), 6),
        navigation_entries: take_at_most(selected(f, Pick::Navigation), 6),
        dangerous_actions: take_at_most(selected(f, Pick::Danger), 6),
        visits: match previous {
            Some(p) => (p.visits + 1) as usize,
            None => 1,
        },
        stale: false,
        last_seen_step: step,
    }
}

/// The elements of a screen description (see [`element_from`]).
pub open spec fn screen_elements(ui: JsonV) -> Seq<ElementV> {
    Seq::new(element_list(ui).len(), |i: int| element_from(element_list(ui)[i], i as nat))
}

/// The package a screen description names, "unknown" when it names none.
pub open spec fn screen_package(ui: JsonV) -> Seq<char> {
    match str_field(ui, "package"@) {
        Some(p) => p,
        None => "unknown"@,
    }
}

pub open spec fn hint_view(h: Option<&str>) -> Option<Seq<char>> {
    match h {
        Some(s) => Some(s@),
        None => None,
    }
}

impl AppMapMemory {
    /// Records a screen: counts the observation; refuses a screen without elements; otherwise
    /// stores the page under `page:` and its fingerprint (replacing what was there, one visit
    /// more), makes it the current page, and returns its candidate actions.
    pub fn observe_ui_state(&mut self, ui_state: &Json, task_hint: Option<&str>) -> (r: AgentCoreResult<MapUpdate>)
        requires
            old(self).wf(),
            old(self).steps_view() < usize::MAX,
        ensures
            final(self).wf(),
            final(self).steps_view() == old(self).steps_view() + 1,
            final(self).transitions_view() == old(self).transitions_view(),
            screen_elements(ui_state.view()).len() == 0 ==> (r matches Err(AgentCoreError::InvalidInput(m))
                && m@ == "ui_state did not contain usable nodes or elements"@
                && final(self).pages_view() == old(self).pages_view() && final(self).current_view() == old(self).current_view()),
            screen_elements(ui_state.view()).len() > 0 ==> {
                let f = functional_elements(screen_elements(ui_state.view()));
                let package = screen_package(ui_state.view());
                let id = "page:"@ + fingerprint_of(package, f);
                let previous = assoc_get(old(self).pages_view(), id);
                &&& r matches Ok(u)
                &&& u.page_id@ == id
                &&& u.created == previous is None
                &&& u.replaced_stale_node == (match previous {
                    Some(p) => p.stale,
                    None => false,
                })
                &&& actions_view(u.candidate_actions@) == candidate_actions_of(id, f)
                &&& final(self).pages_view() == crate::assoc::assoc_insert(
                    old(self).pages_view(),
                    id,
                    observed_page(id, package, f, hint_view(task_hint), previous, final(self).steps_view()),
                )
                &&& final(self).current_view() == Some(id)
            },
    {
        self.step_counter = self.step_counter + 1;
        let package = match str_field_exec(ui_state, "package") {
            Some(p) => p,
            None => owned("unknown"),
        };
        let elements = extract_elements(ui_state);
        if elements.len() == 0 {
            return Err(AgentCoreError::InvalidInput(owned("ui_state did not contain usable nodes or elements")));
        }
        let filtered = filter_functional_elements(elements);
        let fingerprint = page_fingerprint(package.as_str(), &filtered);
        let mut page_id = owned("page:");
        page_id.append(fingerprint.as_str());
        let summary = page_summary(package.as_str(), &filtered, task_hint);
        let candidate_actions = build_candidate_actions(page_id.as_str(), &filtered);
        let key_buttons = select_elements(&filtered, Pick::Button, 8);
        let input_fields = select_elements(&filtered, Pick::Input, 6);
        let navigation_entries = select_elements(&filtered, Pick::Navigation, 6);
        let dangerous_actions = select_elements(&filtered, Pick::Danger, 6);
        let ghost old_pages = pairs_view(self.pages@);
        let (created, replaced_stale_node, visits) = match assoc_find(&self.pages, page_id.as_str()) {
            Some(p) => {
                proof {
                    crate::assoc::lemma_assoc_get_index(old_pages, page_id@);
                    let k = choose|k: int| 0 <= k < old_pages.len() && old_pages[k].0 == page_id@ && old_pages[k].1 == p@
                        && forall|j: int| 0 <= j < k ==> old_pages[j].0 != page_id@;
                    assert(self.pages@[k].1.visits <= old(self).step_counter);
                }
                (false, p.stale, p.visits + 1)
            },
            None => (true, false, 1),
        };
        let node = PageNode {
            id: page_id.clone(),
            package,
            summary,
            fingerprint,
            key_buttons,
            input_fields,
            navigation_entries,
            dangerous_actions,
            visits,
            stale: false,
            last_seen_step: self.step_counter,
        };
        let ghost nv = node@;
        assoc_set(&mut self.pages, page_id.as_str(), node);
        proof {
            lemma_assoc_insert_members(old_pages, page_id@, nv);
            let np = pairs_view(self.pages@);
            assert forall|i: int| 0 <= i < self.pages@.len() implies (#[trigger] self.pages@[i]).1.id@ == self.pages@[i].0@
                && self.pages@[i].1.visits <= self.step_counter by {
                assert(np[i] == (self.pages@[i].0@, self.pages@[i].1@));
                if np[i] != (page_id@, nv) {
                    let k = choose|k: int| 0 <= k < old_pages.len() && old_pages[k] == np[i];
                    assert(old_pages[k] == (old(self).pages@[k].0@, old(self).pages@[k].1@));
                }
            }
        }
        self.current_page = Some(page_id.clone());
        Ok(MapUpdate { page_id, created, replaced_stale_node, candidate_actions })
    }
}

/// Whether a transition leaves `from` by the action `id`.
pub open spec fn leaves_by(t: PageTransition, from: Seq<char>, id: Seq<char>) -> bool {
    t.from_page@ == from && t.action.id@ == id
}

/// The pages whose ids are not listed, in order.
pub open spec fn pages_without(pages: Seq<(Seq<char>, PageV)>, ids: Seq<Seq<char>>) -> Seq<(Seq<char>, PageV)>
    decreases pages.len(),
{
    if pages.len() == 0 {
        Seq::empty()
    } else if ids.contains(pages.last().0) {
        pages_without(pages.drop_last(), ids)
    } else {
        pages_without(pages.drop_last(), ids).push(pages.last())
    }
}

/// The transitions that neither leave nor reach a listed page, in order.
pub open spec fn transitions_without(ts: Seq<PageTransition>, ids: Seq<Seq<char>>) -> Seq<PageTransition>
    decreases ts.len(),
{
    if ts.len() == 0 {
        Seq::empty()
    } else if ids.contains(ts.last().from_page@) || ids.contains(ts.last().to_page@) {
        transitions_without(ts.drop_last(), ids)
    } else {
        transitions_without(ts.drop_last(), ids).push(ts.last())
    }
}

/// The ids of the stale pages, in order.
pub open spec fn stale_ids(pages: Seq<(Seq<char>, PageV)>) -> Seq<Seq<char>>
    decreases pages.len(),
{
    if pages.len() == 0 {
        Seq::empty()
    } else if pages.last().1.stale {
        stale_ids(pages.drop_last()).push(pages.last().0)
    } else {
        stale_ids(pages.drop_last())
    }
}

impl AppMapMemory {
    /// Counts one more failure for every transition that leaves `from_page` by the action
    /// `action_id`, each turning stale once its failures reach its successes plus two.
    pub fn mark_transition_failed(&mut self, from_page: &str, action_id: &str)
        requires
            forall|k: int| 0 <= k < old(self).transitions_view().len() && leaves_by(#[trigger] old(self).transitions_view()[k], from_page@, action_id@)
                ==> old(self).transitions_view()[k].failure_count < usize::MAX,
        ensures
            final(self).pages_view() == old(self).pages_view(),
            final(self).current_view() == old(self).current_view(),
            final(self).steps_view() == old(self).steps_view(),
            final(self).wf() == old(self).wf(),
            final(self).transitions_view().len() == old(self).transitions_view().len(),
            forall|k: int| #![trigger final(self).transitions_view()[k]] 0 <= k < old(self).transitions_view().len() ==> {
                let t0 = old(self).transitions_view()[k];
                let t1 = final(self).transitions_view()[k];
                if leaves_by(t0, from_page@, action_id@) {
                    &&& t1.from_page == t0.from_page && t1.to_page == t0.to_page && t1.action == t0.action
                    &&& t1.success_count == t0.success_count
                    &&& t1.failure_count == t0.failure_count + 1
                    &&& t1.stale == stale_after(t1.success_count as int, t1.failure_count as int)
                } else {
                    t1 == t0
                }
            },
    {
        let ghost t0s = self.transitions@;
        let mut transitions: Vec<PageTransition> = Vec::new();
        std::mem::swap(&mut transitions, &mut self.transitions);
        let mut i: usize = 0;
        while i < transitions.len()
            invariant
                i <= transitions@.len(),
                transitions@.len() == t0s.len(),
                t0s == old(self).transitions@,
                forall|k: int| 0 <= k < t0s.len() && leaves_by(#[trigger] t0s[k], from_page@, action_id@) ==> t0s[k].failure_count < usize::MAX,
                forall|k: int| #![trigger transitions@[k]] i <= k < t0s.len() ==> transitions@[k] == t0s[k],
                forall|k: int| #![trigger transitions@[k]] 0 <= k < i ==> {
                    let t0 = t0s[k];
                    let t1 = transitions@[k];
                    if leaves_by(t0, from_page@, action_id@) {
                        &&& t1.from_page == t0.from_page && t1.to_page == t0.to_page && t1.action == t0.action
                        &&& t1.success_count == t0.success_count
                        &&& t1.failure_count == t0.failure_count + 1
                        &&& t1.stale == stale_after(t1.success_count as int, t1.failure_count as int)
                    } else {
                        t1 == t0
                    }
                },
            decreases transitions.len() - i,
        {
            if str_eq(transitions[i].from_page.as_str(), from_page) && str_eq(transitions[i].action.id.as_str(), action_id) {
                let ghost before = transitions@;
                assert(transitions@[i as int] == t0s[i as int]);
                let mut t = transitions.remove(i);
                t.failure_count = t.failure_count + 1;
                t.stale = stale_now(t.success_count, t.failure_count);
                transitions.insert(i, t);
                proof {
                    assert forall|k: int| #![trigger transitions@[k]] 0 <= k < transitions@.len() && k != i implies transitions@[k] == before[k] by {
                    }
                }
            }
            i += 1;
        }
        self.transitions = transitions;
    }

    /// Marks a page stale; `false` when there is no page with that id.
    pub fn mark_page_stale(&mut self, page_id: &str) -> (r: bool)
        requires
            old(self).wf(),
        ensures
            final(self).wf(),
            r == (assoc_get(old(self).pages_view(), page_id@) is Some),
            !r ==> final(self).pages_view() == old(self).pages_view(),
            r ==> exists|k: int| 0 <= k < old(self).pages_view().len() && old(self).pages_view()[k].0 == page_id@
                && final(self).pages_view() == old(self).pages_view().update(k, (page_id@, PageV { stale: true, ..old(self).pages_view()[k].1 })),
            final(self).transitions_view() == old(self).transitions_view(),
            final(self).current_view() == old(self).current_view(),
            final(self).steps_view() == old(self).steps_view(),
    {
        let ghost p0 = pairs_view(self.pages@);
        let mut i: usize = 0;
        while i < self.pages.len() && !str_eq(self.pages[i].0.as_str(), page_id)
            invariant
                i <= self.pages@.len(),
                p0 == pairs_view(self.pages@),
                forall|k: int| 0 <= k < i ==> p0[k].0 != page_id@,
            decreases self.pages.len() - i,
        {
            i += 1;
        }
        proof {
            crate::assoc::lemma_assoc_get_index(p0, page_id@);
        }
        if i == self.pages.len() {
            return false;
        }
        proof {
            crate::assoc::lemma_assoc_get_at(p0, i as int);
        }
        let mut pages: Vec<(String, PageNode)> = Vec::new();
        std::mem::swap(&mut pages, &mut self.pages);
        let (key, mut node) = pages.remove(i);
        node.stale = true;
        let ghost nv = node@;
        pages.insert(i, (key, node));
        self.pages = pages;
        proof {
            assert(pairs_view(self.pages@) =~= p0.update(i as int, (page_id@, nv)));
            assert(nv == PageV { stale: true, ..p0[i as int].1 });
            assert forall|a: int, b: int| 0 <= a < b < pairs_view(self.pages@).len() implies crate::text::seq_lt(
                #[trigger] pairs_view(self.pages@)[a].0,
                #[trigger] pairs_view(self.pages@)[b].0,
            ) by {
                assert(pairs_view(self.pages@)[a].0 == p0[a].0);
                assert(pairs_view(self.pages@)[b].0 == p0[b].0);
            }
            assert forall|k: int| 0 <= k < self.pages@.len() implies (#[trigger] self.pages@[k]).1.id@ == self.pages@[k].0@
                && self.pages@[k].1.visits <= self.step_counter by {
                if k != i {
                    assert(self.pages@[k] == old(self).pages@[k]);
                } else {
                    assert(old(self).pages@[k].1.id@ == old(self).pages@[k].0@);
                }
            }
        }
        true
    }

    /// Forgets the listed pages (ids given once each) and every transition that leaves or
    /// reaches one of them; the current page is dropped when it is one of them. Returns how
    /// many ids were given.
    fn forget_pages(&mut self, ids: &Vec<String>) -> (r: usize)
        requires
            old(self).wf(),
        ensures
            final(self).wf(),
            r == ids@.len(),
            final(self).pages_view() == pages_without(old(self).pages_view(), views_of_strings(ids@)),
            final(self).transitions_view() == transitions_without(old(self).transitions_view(), views_of_strings(ids@)),
            final(self).current_view() == (match old(self).current_view() {
                Some(c) => if views_of_strings(ids@).contains(c) { None } else { Some(c) },
                None => None,
            }),
            final(self).steps_view() == old(self).steps_view(),
    {
        let ghost idv = views_of_strings(ids@);
        let ghost p0 = pairs_view(self.pages@);
        let mut pages: Vec<(String, PageNode)> = Vec::new();
        std::mem::swap(&mut pages, &mut self.pages);
        let ghost e0 = pages@;
        let mut kept: Vec<(String, PageNode)> = Vec::new();
        let mut rest = pages;
        let mut i: usize = 0;
        let total = rest.len();
        while rest.len() > 0
            invariant
                i <= p0.len(),
                p0.len() == total,
                e0.len() == total,
                p0 == pairs_view(e0),
                idv == views_of_strings(ids@),
                crate::assoc::assoc_sorted(p0),
                rest@ == e0.subrange(i as int, e0.len() as int),
                pairs_view(kept@) == pages_without(p0.subrange(0, i as int), idv),
                crate::assoc::assoc_sorted(pairs_view(kept@)),
                forall|j: int, m: int| 0 <= j < kept@.len() && i <= m < p0.len() ==> crate::text::seq_lt(
                    #[trigger] pairs_view(kept@)[j].0,
                    #[trigger] p0[m].0,
                ),
                forall|j: int| 0 <= j < kept@.len() ==> (#[trigger] kept@[j]).1.id@ == kept@[j].0@ && kept@[j].1.visits <= self.step_counter,
                forall|m: int| 0 <= m < e0.len() ==> (#[trigger] e0[m]).1.id@ == e0[m].0@ && e0[m].1.visits <= self.step_counter,
            decreases rest.len(),
        {
            let ghost r0 = rest@;
            assert(r0[0] == e0[i as int]);
            let entry = rest.remove(0);
            proof {
                assert(rest@ =~= e0.subrange(i + 1, e0.len() as int));
                let sub = p0.subrange(0, i + 1);
                assert(sub.drop_last() =~= p0.subrange(0, i as int));
                assert(sub.last() == p0[i as int]);
                assert(p0[i as int] == (entry.0@, entry.1@));
            }
            if !crate::assoc::strings_contain(ids, entry.0.as_str()) {
                let ghost k0 = pairs_view(kept@);
                let ghost ev = (entry.0@, entry.1@);
                kept.push(entry);
                proof {
                    assert(pairs_view(kept@) =~= k0.push(ev));
                    assert forall|a: int, b: int| 0 <= a < b < pairs_view(kept@).len() implies crate::text::seq_lt(
                        #[trigger] pairs_view(kept@)[a].0,
                        #[trigger] pairs_view(kept@)[b].0,
                    ) by {
                        if b == k0.len() {
                            assert(crate::text::seq_lt(k0[a].0, p0[i as int].0));
                        } else {
                            assert(pairs_view(kept@)[a] == k0[a]);
                            assert(pairs_view(kept@)[b] == k0[b]);
                        }
                    }
                    assert forall|j: int, m: int| 0 <= j < kept@.len() && i + 1 <= m < p0.len() implies crate::text::seq_lt(
                        #[trigger] pairs_view(kept@)[j].0,
                        #[trigger] p0[m].0,
                    ) by {
                        if j == k0.len() {
                            assert(crate::text::seq_lt(p0[i as int].0, p0[m].0));
                        } else {
                            assert(pairs_view(kept@)[j] == k0[j]);
                        }
                    }
                }
            }
            i += 1;
        }
        assert(p0.subrange(0, p0.len() as int) =~= p0);
        self.pages = kept;
        let ghost t0 = self.transitions@;
        let mut transitions: Vec<PageTransition> = Vec::new();
        std::mem::swap(&mut transitions, &mut self.transitions);
        let mut keep_t: Vec<PageTransition> = Vec::new();
        let mut rest_t = transitions;
        let mut j: usize = 0;
        let total_t = rest_t.len();
        while rest_t.len() > 0
            invariant
                j <= t0.len(),
                t0.len() == total_t,
                idv == views_of_strings(ids@),
                rest_t@ == t0.subrange(j as int, t0.len() as int),
                keep_t@ == transitions_without(t0.subrange(0, j as int), idv),
            decreases rest_t.len(),
        {
            let ghost r0 = rest_t@;
            assert(r0[0] == t0[j as int]);
            let t = rest_t.remove(0);
            proof {
                assert(rest_t@ =~= t0.subrange(j + 1, t0.len() as int));
                let sub = t0.subrange(0, j + 1);
                assert(sub.drop_last() =~= t0.subrange(0, j as int));
                assert(sub.last() == t);
            }
            if !crate::assoc::strings_contain(ids, t.from_page.as_str()) && !crate::assoc::strings_contain(ids, t.to_page.as_str()) {
                keep_t.push(t);
            }
            j += 1;
        }
        assert(t0.subrange(0, t0.len() as int) =~= t0);
        self.transitions = keep_t;
        let drop_current = match &self.current_page {
            Some(c) => crate::assoc::strings_contain(ids, c.as_str()),
            None => false,
        };
        if drop_current {
            self.current_page = None;
        }
        ids.len()
    }
}

/// The finished runs of alphanumeric characters, and the run in progress.
pub open spec fn word_runs(s: Seq<char>) -> (Seq<Seq<char>>, Seq<char>)
    decreases s.len(),
{
    if s.len() == 0 {
        (Seq::empty(), Seq::empty())
    } else {
        let (ps, cur) = word_runs(s.drop_last());
        if !alphanumeric(s.last()) {
            if cur.len() > 0 {
                (ps.push(cur), Seq::empty())
            } else {
                (ps, Seq::empty())
            }
        } else {
            (ps, cur.push(s.last()))
        }
    }
}

pub open spec fn words_of(s: Seq<char>) -> Seq<Seq<char>> {
    let (ps, cur) = word_runs(s);
    if cur.len() > 0 {
        ps.push(cur)
    } else {
        ps
    }
}

/// The search tokens of the words, in order: those of two bytes or more, in lower case.
pub open spec fn word_tokens(ws: Seq<Seq<char>>) -> Seq<Seq<char>>
    decreases ws.len(),
{
    if ws.len() == 0 {
        Seq::empty()
    } else if vstd::utf8::encode_utf8(ws.last()).len() >= 2 {
        word_tokens(ws.drop_last()).push(lowercase(ws.last()))
    } else {
        word_tokens(ws.drop_last())
    }
}

/// The distinct search tokens of a text, in order.
pub open spec fn tokens_of(s: Seq<char>) -> Seq<Seq<char>> {
    sorted_unique(word_tokens(words_of(s)))
}

/// The distinct search tokens of a text, in order.
fn tokenize(text: &str) -> (r: Vec<String>)
    ensures
        views_of_strings(r@) == tokens_of(text@),
        crate::assoc::set_sorted(views_of_strings(r@)),
        views_of_strings(r@).to_set() == word_tokens(words_of(text@)).to_set(),
{
    let cs = crate::text::chars_of(text);
    let mut words: Vec<String> = Vec::new();
    let mut cur = String::new();
    let mut i: usize = 0;
    while i < cs.len()
        invariant
            cs@ == text@,
            i <= cs@.len(),
            (views_of_strings(words@), cur@) == word_runs(text@.subrange(0, i as int)),
        decreases cs.len() - i,
    {
        let c = cs[i];
        proof {
            let sub = text@.subrange(0, i + 1);
            assert(sub.drop_last() =~= text@.subrange(0, i as int));
            assert(sub.last() == c);
        }
        if !is_alphanumeric_char(c) {
            if !cur.as_str().is_empty() {
                let ghost p0 = views_of_strings(words@);
                let ghost c0 = cur@;
                let mut done = String::new();
                std::mem::swap(&mut done, &mut cur);
                words.push(done);
                assert(views_of_strings(words@) =~= p0.push(c0));
                assert(cur@ =~= Seq::<char>::empty());
            } else {
                cur = String::new();
                assert(cur@ =~= Seq::<char>::empty());
            }
        } else {
            crate::text::push_char(&mut cur, c);
        }
        i += 1;
    }
    assert(text@.subrange(0, text@.len() as int) =~= text@);
    if !cur.as_str().is_empty() {
        let ghost p0 = views_of_strings(words@);
        let ghost c0 = cur@;
        words.push(cur);
        assert(views_of_strings(words@) =~= p0.push(c0));
    }
    let ghost wv = views_of_strings(words@);
    assert(wv == words_of(text@));
    let mut tokens: Vec<String> = Vec::new();
    let mut k: usize = 0;
    while k < words.len()
        invariant
            k <= words@.len(),
            wv == views_of_strings(words@),
            views_of_strings(tokens@) == word_tokens(wv.subrange(0, k as int)),
        decreases words.len() - k,
    {
        proof {
            let sub = wv.subrange(0, k + 1);
            assert(sub.drop_last() =~= wv.subrange(0, k as int));
            assert(sub.last() == words@[k as int]@);
        }
        let bytes = words[k].as_str().as_bytes_vec();
        if bytes.len() >= 2 {
            let ghost t0 = views_of_strings(tokens@);
            let low = lowercase_text(words[k].as_str());
            tokens.push(low);
            assert(views_of_strings(tokens@) =~= t0.push(lowercase(wv[k as int])));
        }
        k += 1;
    }
    assert(wv.subrange(0, wv.len() as int) =~= wv);
    let ghost tv = views_of_strings(tokens@);
    let mut set: Vec<String> = Vec::new();
    let mut m: usize = 0;
    proof {
        assert(crate::assoc::strings_view(set@) =~= Seq::empty());
    }
    while m < tokens.len()
        invariant
            m <= tokens@.len(),
            tv == views_of_strings(tokens@),
            crate::assoc::set_sorted(crate::assoc::strings_view(set@)),
            crate::assoc::strings_view(set@).to_set() == tv.subrange(0, m as int).to_set(),
        decreases tokens.len() - m,
    {
        crate::assoc::set_add(&mut set, tokens[m].as_str());
        proof {
            lemma_push_to_set(tv.subrange(0, m as int), tv[m as int]);
            assert(tv.subrange(0, m + 1) =~= tv.subrange(0, m as int).push(tv[m as int]));
        }
        m += 1;
    }
    proof {
        assert(tv.subrange(0, tv.len() as int) =~= tv);
        let t = crate::assoc::strings_view(set@);
        lemma_sorted_set_unique(t, sorted_unique(tv));
        assert(views_of_strings(set@) =~= t);
        assert(tv == word_tokens(words_of(text@)));
    }
    set
}

proof fn lemma_push_to_set(p: Seq<Seq<char>>, x: Seq<char>)
    ensures
        p.push(x).to_set() == p.to_set().insert(x),
{
    assert forall|y: Seq<char>| p.push(x).to_set().contains(y) <==> p.to_set().insert(x).contains(y) by {
        if p.push(x).contains(y) {
            let j = choose|j: int| 0 <= j < p.len() + 1 && p.push(x)[j] == y;
            if j < p.len() {
                assert(p[j] == y);
            }
        }
        if p.contains(y) {
            let j = choose|j: int| 0 <= j < p.len() && p[j] == y;
            assert(p.push(x)[j] == y);
        }
        if y == x {
            assert(p.push(x)[p.len() as int] == y);
        }
    }
    assert(p.push(x).to_set() =~= p.to_set().insert(x));
}

proof fn lemma_words_len(s: Seq<char>)
    ensures
        word_runs(s).0.len() + word_runs(s).1.len() <= s.len(),
        words_of(s).len() <= s.len(),
    decreases s.len(),
{
    if s.len() > 0 {
        lemma_words_len(s.drop_last());
    }
}

proof fn lemma_word_tokens_len(ws: Seq<Seq<char>>)
    ensures
        word_tokens(ws).len() <= ws.len(),
    decreases ws.len(),
{
    if ws.len() > 0 {
        lemma_word_tokens_len(ws.drop_last());
    }
}

/// There are no more distinct search tokens in a text than characters.
proof fn lemma_tokens_len(s: Seq<char>, t: Seq<Seq<char>>)
    requires
        t == tokens_of(s),
        crate::assoc::set_sorted(t),
        t.to_set() == word_tokens(words_of(s)).to_set(),
    ensures
        t.len() <= s.len(),
{
    lemma_words_len(s);
    lemma_word_tokens_len(words_of(s));
    assert(t.no_duplicates()) by {
        assert forall|i: int, j: int| 0 <= i < t.len() && 0 <= j < t.len() && i != j implies t[i] != t[j] by {
            if i < j {
                assert(crate::text::seq_lt(t[i], t[j]));
            } else {
                assert(crate::text::seq_lt(t[j], t[i]));
            }
            if t[i] == t[j] {
                crate::text::lemma_seq_lt_irrefl(t[i]);
            }
        }
    }
    t.unique_seq_to_set();
    word_tokens(words_of(s)).lemma_cardinality_of_set();
}

/// The labels of elements, in order.
pub open spec fn element_labels(es: Seq<ElementV>) -> Seq<Seq<char>> {
    Seq::new(es.len(), |i: int| label_of(es[i]))
}

/// The text a page is searched by: its package, summary, and the labels of its buttons and
/// inputs.
pub open spec fn haystack_of(p: PageV) -> Seq<char> {
    p.package + " "@ + p.summary + " "@ + join_seq(element_labels(p.key_buttons), " "@) + " "@ + join_seq(element_labels(p.input_fields), " "@)
}

/// How many of the tokens `qs` are among `ps`.
pub open spec fn overlap(qs: Seq<Seq<char>>, ps: Seq<Seq<char>>) -> nat
    decreases qs.len(),
{
    if qs.len() == 0 {
        0
    } else {
        overlap(qs.drop_last(), ps) + (if ps.contains(qs.last()) { 1nat } else { 0nat })
    }
}

/// How well a page matches a query: two per shared token, three more when the query (not
/// blank) occurs in the page's text, ignoring case.
pub open spec fn match_score(p: PageV, query: Seq<char>) -> nat {
    overlap(tokens_of(query), tokens_of(haystack_of(p))) * 2 + (if crate::text::trim_seq(query).len() > 0
        && crate::text::seq_contains(lowercase(haystack_of(p)), lowercase(query)) {
        3nat
    } else {
        0nat
    })
}

proof fn lemma_overlap_shared(qs: Seq<Seq<char>>, ps: Seq<Seq<char>>, t: Seq<char>)
    requires
        qs.contains(t),
        ps.contains(t),
    ensures
        overlap(qs, ps) >= 1,
    decreases qs.len(),
{
    if qs.last() != t {
        let k = choose|k: int| 0 <= k < qs.len() && qs[k] == t;
        assert(qs.drop_last()[k] == t);
        lemma_overlap_shared(qs.drop_last(), ps, t);
    }
}

/// A page that shares a search token with the query matches it: each shared token is worth
/// two, whether or not the query occurs in the page's text as a whole (and three more when
/// it does).
pub proof fn lemma_shared_token_scores(p: PageV, query: Seq<char>, t: Seq<char>)
    requires
        tokens_of(query).contains(t),
        tokens_of(haystack_of(p)).contains(t),
    ensures
        match_score(p, query) >= 2,
        crate::text::trim_seq(query).len() > 0 && crate::text::seq_contains(lowercase(haystack_of(p)), lowercase(query))
            ==> match_score(p, query) >= 5,
        page_score(p, query) >= 2,
{
    lemma_overlap_shared(tokens_of(query), tokens_of(haystack_of(p)), t);
}

/// A remembered page that shares a search token with the query is among the hits of a
/// search, unless the hits already fill `limit`.
pub proof fn lemma_shared_token_is_found(
    pages: Seq<(Seq<char>, PageV)>,
    query: Seq<char>,
    limit: nat,
    r: Seq<SearchHit>,
    k: int,
    t: Seq<char>,
)
    requires
        search_ok(pages, query, limit, r),
        0 <= k < pages.len(),
        tokens_of(query).contains(t),
        tokens_of(haystack_of(pages[k].1)).contains(t),
        r.len() < limit,
    ensures
        has_hit(r, pages[k].0),
{
    lemma_shared_token_scores(pages[k].1, query, t);
    if !has_hit(r, pages[k].0) {
        assert(r.len() == limit);
    }
}

/// The hits of a search come best score first, and hits with equal scores in page-id order;
/// each hit's score is its page's score, which is more than the staleness point alone.
pub proof fn lemma_hits_best_first(pages: Seq<(Seq<char>, PageV)>, query: Seq<char>, limit: nat, r: Seq<SearchHit>, i: int, j: int)
    requires
        search_ok(pages, query, limit, r),
        0 <= i < j < r.len(),
    ensures
        r[i].score >= r[j].score,
        r[i].score == r[j].score ==> crate::text::seq_lt(r[i].page_id@, r[j].page_id@),
        r[i].score >= 1,
{
    assert(crate::trajectory::ranks_before(hit_rank(r[i]), hit_rank(r[j])));
    assert(hit_of_page(pages, query, r[i]));
}

/// A matching page's score: its match, one more when it is not stale.
pub open spec fn page_score(p: PageV, query: Seq<char>) -> nat {
    match_score(p, query) + (if p.stale { 0nat } else { 1nat })
}

/// A page that matched a search.
#[derive(Clone, Debug, PartialEq, Eq)]
pub struct SearchHit {
    pub page_id: String,
    pub score: usize,
    pub summary: String,
}

pub open spec fn hit_rank(h: SearchHit) -> (Seq<char>, nat) {
    (h.page_id@, h.score as nat)
}

pub open spec fn has_hit(r: Seq<SearchHit>, id: Seq<char>) -> bool {
    exists|i: int| 0 <= i < r.len() && r[i].page_id@ == id
}

/// A hit for one of the pages that match the query, with its score and summary.
pub open spec fn hit_of_page(pages: Seq<(Seq<char>, PageV)>, query: Seq<char>, h: SearchHit) -> bool {
    exists|k: int| 0 <= k < pages.len() && pages[k].0 == h.page_id@ && match_score(pages[k].1, query) > 0
        && h.score as nat == page_score(pages[k].1, query) && h.summary@ == pages[k].1.summary
}

/// The hits of a search: pages that match, with their scores and summaries, best score first
/// (ties by page id), at most `limit`, and no matching page left out that would rank before
/// one kept.
pub open spec fn search_ok(pages: Seq<(Seq<char>, PageV)>, query: Seq<char>, limit: nat, r: Seq<SearchHit>) -> bool {
    &&& r.len() <= limit
    &&& forall|i: int| #![trigger r[i]] 0 <= i < r.len() ==> hit_of_page(pages, query, r[i])
    &&& forall|i: int, j: int| 0 <= i < j < r.len() ==> crate::trajectory::ranks_before(hit_rank(#[trigger] r[i]), hit_rank(#[trigger] r[j]))
    &&& forall|k: int| 0 <= k < pages.len() && match_score(pages[k].1, query) > 0 && !has_hit(r, #[trigger] pages[k].0)
        ==> r.len() == limit && forall|i: int| 0 <= i < r.len() ==> crate::trajectory::ranks_before(hit_rank(#[trigger] r[i]), (pages[k].0, page_score(pages[k].1, query)))
}

fn labels_of(es: &Vec<UiElementSummary>) -> (r: Vec<String>)
    ensures
        views_of_strings(r@) == element_labels(elements_view(es@)),
{
    let mut out: Vec<String> = Vec::new();
    let mut i: usize = 0;
    while i < es.len()
        invariant
            i <= es@.len(),
            out@.len() == i,
            forall|k: int| 0 <= k < i ==> (#[trigger] out@[k])@ == label_of(es@[k]@),
        decreases es.len() - i,
    {
        out.push(element_label(&es[i]));
        i += 1;
    }
    assert(views_of_strings(out@) =~= element_labels(elements_view(es@)));
    out
}

fn haystack(p: &PageNode) -> (r: String)
    ensures
        r@ == haystack_of(p@),
{
    let mut r = p.package.clone();
    r.append(" ");
    r.append(p.summary.as_str());
    r.append(" ");
    r.append(join_strings_sep(&labels_of(&p.key_buttons), " ").as_str());
    r.append(" ");
    r.append(join_strings_sep(&labels_of(&p.input_fields), " ").as_str());
    r
}

fn count_overlap(qs: &Vec<String>, ps: &Vec<String>) -> (r: usize)
    ensures
        r as nat == overlap(views_of_strings(qs@), views_of_strings(ps@)),
        r <= qs@.len(),
{
    let ghost qv = views_of_strings(qs@);
    let ghost pv = views_of_strings(ps@);
    let mut n: usize = 0;
    let mut i: usize = 0;
    while i < qs.len()
        invariant
            i <= qs@.len(),
            qv == views_of_strings(qs@),
            pv == views_of_strings(ps@),
            n as nat == overlap(qv.subrange(0, i as int), pv),
            n <= i,
        decreases qs.len() - i,
    {
        proof {
            let sub = qv.subrange(0, i + 1);
            assert(sub.drop_last() =~= qv.subrange(0, i as int));
            assert(sub.last() == qs@[i as int]@);
            assert(crate::assoc::strings_view(ps@) == pv);
        }
        if crate::assoc::strings_contain(ps, qs[i].as_str()) {
            n += 1;
        }
        i += 1;
    }
    assert(qv.subrange(0, qv.len() as int) =~= qv);
    n
}

/// A hit copied from one of the candidates.
spec fn hit_from(cand: Seq<SearchHit>, h: SearchHit) -> bool {
    exists|k: int| 0 <= k < cand.len() && cand[k].page_id@ == h.page_id@ && cand[k].score == h.score && cand[k].summary@ == h.summary@
}

spec fn left_out_hits(cand: Seq<SearchHit>, r: Seq<SearchHit>, limit: nat) -> bool {
    forall|k: int| 0 <= k < cand.len() && !has_hit(r, #[trigger] cand[k].page_id@)
        ==> r.len() == limit && forall|i: int| 0 <= i < r.len() ==> crate::trajectory::ranks_before(hit_rank(#[trigger] r[i]), hit_rank(cand[k]))
}

/// The best-ranked hits, best first, at most `limit`; a hit left out ranks after all kept,
/// and is left out only when `limit` is reached.
#[verifier::rlimit(60)]
fn rank_hits(cand: &Vec<SearchHit>, limit: usize) -> (r: Vec<SearchHit>)
    requires
        forall|p: int, q: int| 0 <= p < q < cand@.len() ==> cand@[p].page_id@ != cand@[q].page_id@,
    ensures
        r@.len() <= limit,
        forall|i: int| #![trigger r@[i]] 0 <= i < r@.len() ==> hit_from(cand@, r@[i]),
        forall|i: int, j: int| 0 <= i < j < r@.len() ==> crate::trajectory::ranks_before(hit_rank(#[trigger] r@[i]), hit_rank(#[trigger] r@[j])),
        left_out_hits(cand@, r@, limit as nat),
{
    let n = cand.len();
    let mut chosen: Vec<bool> = Vec::new();
    let mut z: usize = 0;
    while z < n
        invariant
            z <= n,
            n == cand@.len(),
            chosen@.len() == z,
            forall|k: int| 0 <= k < z ==> !chosen@[k],
        decreases n - z,
    {
        chosen.push(false);
        z += 1;
    }
    let ghost mut src: Seq<int> = Seq::empty();
    let ghost mut pos: Seq<int> = Seq::new(n as nat, |k: int| 0int);
    let mut r: Vec<SearchHit> = Vec::new();
    let mut done = false;
    while !done && r.len() < limit
        invariant
            n == cand@.len(),
            chosen@.len() == n,
            pos.len() == n,
            src.len() == r@.len(),
            r@.len() <= limit,
            forall|p: int, q: int| 0 <= p < q < cand@.len() ==> cand@[p].page_id@ != cand@[q].page_id@,
            forall|i: int| #![trigger src[i]] 0 <= i < r@.len() ==> 0 <= src[i] < n,
            forall|i: int| #![trigger src[i]] 0 <= i < r@.len() ==> chosen@[src[i]],
            forall|i: int| #![trigger src[i]] 0 <= i < r@.len() ==> cand@[src[i]].page_id@ == r@[i].page_id@
                && cand@[src[i]].score == r@[i].score && cand@[src[i]].summary@ == r@[i].summary@,
            forall|k: int| 0 <= k < n && #[trigger] chosen@[k] ==> 0 <= pos[k] < r@.len() && r@[pos[k]].page_id@ == cand@[k].page_id@,
            forall|i: int, j: int| 0 <= i < j < r@.len() ==> crate::trajectory::ranks_before(hit_rank(#[trigger] r@[i]), hit_rank(#[trigger] r@[j])),
            forall|i: int, k: int| 0 <= i < r@.len() && 0 <= k < n && !chosen@[k]
                ==> crate::trajectory::ranks_before(hit_rank(#[trigger] r@[i]), hit_rank(#[trigger] cand@[k])),
            done ==> forall|k: int| 0 <= k < n ==> #[trigger] chosen@[k],
        decreases limit - r@.len(), if done { 0int } else { 1int },
    {
        let mut best: Option<usize> = None;
        let mut m: usize = 0;
        while m < n
            invariant
                m <= n,
                n == cand@.len(),
                chosen@.len() == n,
                forall|p: int, q: int| 0 <= p < q < cand@.len() ==> cand@[p].page_id@ != cand@[q].page_id@,
                best matches Some(bi) ==> bi < m && !chosen@[bi as int]
                    && forall|k: int| 0 <= k < m && !chosen@[k] && k != bi ==> crate::trajectory::ranks_before(hit_rank(cand@[bi as int]), hit_rank(#[trigger] cand@[k])),
                best is None ==> forall|k: int| 0 <= k < m ==> #[trigger] chosen@[k],
            decreases n - m,
        {
            if !chosen[m] {
                match best {
                    None => {
                        best = Some(m);
                    },
                    Some(bi) => {
                        let better = cand[m].score > cand[bi].score || (cand[m].score == cand[bi].score
                            && crate::text::str_lt(cand[m].page_id.as_str(), cand[bi].page_id.as_str()));
                        if better {
                            proof {
                                assert forall|k: int| 0 <= k < m + 1 && !chosen@[k] && k != m implies crate::trajectory::ranks_before(hit_rank(cand@[m as int]), hit_rank(#[trigger] cand@[k])) by {
                                    if k != bi {
                                        crate::trajectory::lemma_rank_trans(hit_rank(cand@[m as int]), hit_rank(cand@[bi as int]), hit_rank(cand@[k]));
                                    }
                                }
                            }
                            best = Some(m);
                        } else {
                            proof {
                                assert(cand@[bi as int].page_id@ != cand@[m as int].page_id@);
                                crate::trajectory::lemma_rank_total(hit_rank(cand@[bi as int]), hit_rank(cand@[m as int]));
                            }
                        }
                    },
                }
            }
            m += 1;
        }
        match best {
            None => {
                done = true;
            },
            Some(bi) => {
                let ghost r0 = r@;
                let ghost ch0 = chosen@;
                let h = SearchHit { page_id: cand[bi].page_id.clone(), score: cand[bi].score, summary: cand[bi].summary.clone() };
                r.push(h);
                chosen.set(bi, true);
                proof {
                    let q = r0.len() as int;
                    let src0 = src;
                    let pos0 = pos;
                    src = src.push(bi as int);
                    pos = pos.update(bi as int, q);
                    assert forall|i: int| #![trigger src[i]] 0 <= i < r@.len() implies 0 <= src[i] < n && chosen@[src[i]]
                        && cand@[src[i]].page_id@ == r@[i].page_id@ && cand@[src[i]].score == r@[i].score && cand@[src[i]].summary@ == r@[i].summary@ by {
                        if i < q {
                            assert(r@[i] == r0[i]);
                            assert(src[i] == src0[i]);
                            let si = src0[i];
                            assert(0 <= si < n && ch0[si]);
                            assert(chosen@[si]);
                        } else {
                            assert(src[i] == bi);
                        }
                    }
                    assert forall|k: int| 0 <= k < n && #[trigger] chosen@[k] implies 0 <= pos[k] < r@.len() && r@[pos[k]].page_id@ == cand@[k].page_id@ by {
                        if k != bi {
                            assert(ch0[k]);
                            assert(pos[k] == pos0[k]);
                            assert(r@[pos[k]] == r0[pos[k]]);
                        }
                    }
                    assert forall|i: int, j: int| 0 <= i < j < r@.len() implies crate::trajectory::ranks_before(hit_rank(#[trigger] r@[i]), hit_rank(#[trigger] r@[j])) by {
                        assert(r@[i] == r0[i]);
                        if j < q {
                            assert(r@[j] == r0[j]);
                        } else {
                            assert(!ch0[bi as int]);
                            assert(crate::trajectory::ranks_before(hit_rank(r0[i]), hit_rank(cand@[bi as int])));
                        }
                    }
                    assert forall|i: int, k: int| 0 <= i < r@.len() && 0 <= k < n && !chosen@[k]
                        implies crate::trajectory::ranks_before(hit_rank(#[trigger] r@[i]), hit_rank(#[trigger] cand@[k])) by {
                        assert(k != bi);
                        assert(!ch0[k]);
                        if i < q {
                            assert(r@[i] == r0[i]);
                        }
                    }
                }
            },
        }
    }
    proof {
        assert forall|i: int| #![trigger r@[i]] 0 <= i < r@.len() implies hit_from(cand@, r@[i]) by {
            let k = src[i];
            assert(0 <= k < n && cand@[k].page_id@ == r@[i].page_id@ && cand@[k].score == r@[i].score && cand@[k].summary@ == r@[i].summary@);
        }
        assert(done || r@.len() == limit);
        assert forall|k: int| 0 <= k < cand@.len() && !has_hit(r@, #[trigger] cand@[k].page_id@)
            implies r@.len() == limit && forall|i: int| 0 <= i < r@.len() ==> crate::trajectory::ranks_before(hit_rank(#[trigger] r@[i]), hit_rank(cand@[k])) by {
            if chosen@[k] {
                let pk = pos[k];
                assert(0 <= pk < r@.len() && r@[pk].page_id@ == cand@[k].page_id@);
                assert(false);
            }
            if done {
                assert(chosen@[k]);
                assert(false);
            }
            assert forall|i: int| 0 <= i < r@.len() implies crate::trajectory::ranks_before(hit_rank(#[trigger] r@[i]), hit_rank(cand@[k])) by {
                assert(crate::trajectory::ranks_before(hit_rank(r@[i]), hit_rank(cand@[k])));
            }
        }
    }
    r
}

impl AppMapMemory {
    /// The pages that match a query (see [`match_score`]), best first (see [`search_ok`]).
    pub fn semantic_search(&self, query: &str, limit: usize) -> (r: Vec<SearchHit>)
        requires
            self.wf(),
            query@.len() <= usize::MAX / 4,
        ensures
            search_ok(self.pages_view(), query@, limit as nat, r@),
    {
        let ghost pv = pairs_view(self.pages@);
        let qs = tokenize(query);
        proof {
            lemma_tokens_len(query@, views_of_strings(qs@));
        }
        let trimmed = crate::text::trim_str(query);
        let blank = trimmed.as_str().is_empty();
        let lq = lowercase_text(query);
        let mut cand: Vec<SearchHit> = Vec::new();
        let ghost mut origin: Seq<int> = Seq::empty();
        let mut i: usize = 0;
        while i < self.pages.len()
            invariant
                i <= self.pages@.len(),
                pv == pairs_view(self.pages@),
                crate::assoc::assoc_sorted(pv),
                views_of_strings(qs@) == tokens_of(query@),
                qs@.len() <= usize::MAX / 4,
                blank == (crate::text::trim_seq(query@).len() == 0),
                lq@ == lowercase(query@),
                origin.len() == cand@.len(),
                forall|c: int| #![trigger origin[c]] 0 <= c < cand@.len() ==> 0 <= origin[c] < i
                    && cand@[c].page_id@ == pv[origin[c]].0
                    && match_score(pv[origin[c]].1, query@) > 0
                    && cand@[c].score as nat == page_score(pv[origin[c]].1, query@)
                    && cand@[c].summary@ == pv[origin[c]].1.summary,
                forall|p: int, q: int| 0 <= p < q < cand@.len() ==> origin[p] < origin[q],
                forall|k: int| 0 <= k < i && match_score(#[trigger] pv[k].1, query@) > 0 ==> exists|c: int| 0 <= c < cand@.len() && origin[c] == k,
            decreases self.pages.len() - i,
        {
            let key = &self.pages[i].0;
            let page = &self.pages[i].1;
            assert(pv[i as int] == (key@, page@));
            let hay = haystack(page);
            let ps = tokenize(hay.as_str());
            let ov = count_overlap(&qs, &ps);
            let lh = lowercase_text(hay.as_str());
            let bonus = !blank && crate::text::str_contains(lh.as_str(), lq.as_str());
            let matched: usize = ov * 2 + if bonus { 3 } else { 0 };
            assert(matched as nat == match_score(page@, query@));
            if matched > 0 {
                let score: usize = matched + if page.stale { 0 } else { 1 };
                let ghost c0 = cand@;
                let ghost o0 = origin;
                cand.push(SearchHit { page_id: key.clone(), score, summary: page.summary.clone() });
                proof {
                    origin = origin.push(i as int);
                    assert forall|c: int| #![trigger origin[c]] 0 <= c < cand@.len() implies 0 <= origin[c] < i + 1
                        && cand@[c].page_id@ == pv[origin[c]].0
                        && match_score(pv[origin[c]].1, query@) > 0
                        && cand@[c].score as nat == page_score(pv[origin[c]].1, query@)
                        && cand@[c].summary@ == pv[origin[c]].1.summary by {
                        if c < c0.len() {
                            assert(origin[c] == o0[c]);
                            assert(cand@[c] == c0[c]);
                        } else {
                            assert(origin[c] == i);
                        }
                    }
                    assert forall|p: int, q: int| 0 <= p < q < cand@.len() implies origin[p] < origin[q] by {
                        assert(origin[p] == o0[p]);
                        if q < c0.len() {
                            assert(origin[q] == o0[q]);
                        } else {
                            assert(o0[p] < i) by {
                                assert(0 <= o0[p] < i);
                            }
                        }
                    }
                    assert forall|k: int| 0 <= k < i + 1 && match_score(#[trigger] pv[k].1, query@) > 0 implies exists|c: int| 0 <= c < cand@.len() && origin[c] == k by {
                        if k < i {
                            let c = choose|c: int| 0 <= c < c0.len() && o0[c] == k;
                            assert(origin[c] == k);
                        } else {
                            assert(origin[c0.len() as int] == k);
                        }
                    }
                }
            }
            i += 1;
        }
        proof {
            assert forall|p: int, q: int| 0 <= p < q < cand@.len() implies cand@[p].page_id@ != cand@[q].page_id@ by {
                assert(origin[p] < origin[q]);
                assert(crate::text::seq_lt(pv[origin[p]].0, pv[origin[q]].0));
                if cand@[p].page_id@ == cand@[q].page_id@ {
                    crate::text::lemma_seq_lt_irrefl(pv[origin[p]].0);
                }
            }
        }
        let r = rank_hits(&cand, limit);
        proof {
            let rs = r@;
            assert forall|i: int| #![trigger rs[i]] 0 <= i < rs.len() implies hit_of_page(pv, query@, rs[i]) by {
                assert(hit_from(cand@, rs[i]));
                let c = choose|c: int| 0 <= c < cand@.len() && cand@[c].page_id@ == rs[i].page_id@ && cand@[c].score == rs[i].score
                    && cand@[c].summary@ == rs[i].summary@;
                let k = origin[c];
                assert(0 <= k < pv.len() && pv[k].0 == rs[i].page_id@ && match_score(pv[k].1, query@) > 0
                    && rs[i].score as nat == page_score(pv[k].1, query@) && rs[i].summary@ == pv[k].1.summary);
            }
            assert forall|k: int| 0 <= k < pv.len() && match_score(pv[k].1, query@) > 0 && !has_hit(rs, #[trigger] pv[k].0)
                implies rs.len() == limit && forall|i: int| 0 <= i < rs.len() ==> crate::trajectory::ranks_before(hit_rank(#[trigger] rs[i]), (pv[k].0, page_score(pv[k].1, query@))) by {
                assert(match_score(pv[k].1, query@) > 0);
                let c = choose|c: int| 0 <= c < cand@.len() && origin[c] == k;
                assert(cand@[c].page_id@ == pv[k].0);
                assert(hit_rank(cand@[c]) == (pv[k].0, page_score(pv[k].1, query@)));
                assert(!has_hit(rs, cand@[c].page_id@));
            }
        }
        r
    }
}

/// What to forget: one page, the pages a query finds, or the stale pages.
#[derive(Clone, Debug, PartialEq, Eq)]
pub enum ForgetScope {
    Page { page_id: String },
    Query { query: String },
    Stale,
}

pub open spec fn hit_ids(r: Seq<SearchHit>) -> Seq<Seq<char>> {
    Seq::new(r.len(), |i: int| r[i].page_id@)
}

/// The map after forgetting the listed pages.
pub open spec fn forgot(m0: &AppMapMemory, m1: &AppMapMemory, ids: Seq<Seq<char>>) -> bool {
    &&& m1.wf()
    &&& m1.pages_view() == pages_without(m0.pages_view(), ids)
    &&& m1.transitions_view() == transitions_without(m0.transitions_view(), ids)
    &&& m1.current_view() == (match m0.current_view() {
        Some(c) => if ids.contains(c) { None } else { Some(c) },
        None => None,
    })
    &&& m1.steps_view() == m0.steps_view()
}

impl AppMapMemory {
    /// The ids of the stale pages, in order.
    fn stale_page_ids(&self) -> (r: Vec<String>)
        ensures
            views_of_strings(r@) == stale_ids(self.pages_view()),
    {
        let ghost pv = pairs_view(self.pages@);
        let mut out: Vec<String> = Vec::new();
        let mut i: usize = 0;
        while i < self.pages.len()
            invariant
                i <= self.pages@.len(),
                pv == pairs_view(self.pages@),
                views_of_strings(out@) == stale_ids(pv.subrange(0, i as int)),
            decreases self.pages.len() - i,
        {
            proof {
                let sub = pv.subrange(0, i + 1);
                assert(sub.drop_last() =~= pv.subrange(0, i as int));
                assert(sub.last() == pv[i as int]);
            }
            if self.pages[i].1.stale {
                let ghost o0 = views_of_strings(out@);
                out.push(self.pages[i].0.clone());
                assert(views_of_strings(out@) =~= o0.push(pv[i as int].0));
            }
            i += 1;
        }
        assert(pv.subrange(0, pv.len() as int) =~= pv);
        out
    }

    /// Forgets pages and the transitions that touch them; returns how many pages were named
    /// for forgetting (one for a single page, whether or not it was there).
    pub fn forget(&mut self, scope: ForgetScope) -> (r: usize)
        requires
            old(self).wf(),
            scope matches ForgetScope::Query { query } ==> query@.len() <= usize::MAX / 4,
        ensures
            scope matches ForgetScope::Page { page_id } ==> r == 1 && forgot(old(self), final(self), seq![page_id@]),
            scope is Stale ==> r == stale_ids(old(self).pages_view()).len()
                && forgot(old(self), final(self), stale_ids(old(self).pages_view())),
            scope matches ForgetScope::Query { query } ==> exists|hits: Seq<SearchHit>| #![trigger hit_ids(hits)]
                search_ok(old(self).pages_view(), query@, usize::MAX as nat, hits) && r == hits.len()
                && forgot(old(self), final(self), hit_ids(hits)),
    {
        match scope {
            ForgetScope::Page { page_id } => {
                let ghost id = page_id@;
                let ids = vec![page_id];
                assert(views_of_strings(ids@) =~= seq![id]);
                self.forget_pages(&ids)
            },
            ForgetScope::Query { query } => {
                let hits = self.semantic_search(query.as_str(), usize::MAX);
                let mut ids: Vec<String> = Vec::new();
                let mut i: usize = 0;
                while i < hits.len()
                    invariant
                        i <= hits@.len(),
                        ids@.len() == i,
                        forall|k: int| 0 <= k < i ==> (#[trigger] ids@[k])@ == hits@[k].page_id@,
                    decreases hits.len() - i,
                {
                    ids.push(hits[i].page_id.clone());
                    i += 1;
                }
                assert(views_of_strings(ids@) =~= hit_ids(hits@));
                self.forget_pages(&ids)
            },
            ForgetScope::Stale => {
                let ids = self.stale_page_ids();
                self.forget_pages(&ids)
            },
        }
    }
}

/// The value of a transition.
pub struct TransitionV {
    pub from_page: Seq<char>,
    pub to_page: Seq<char>,
    pub action: ActionV,
    pub success_count: usize,
    pub failure_count: usize,
    pub stale: bool,
}

impl View for PageTransition {
    type V = TransitionV;

    open spec fn view(&self) -> TransitionV {
        TransitionV {
            from_page: self.from_page@,
            to_page: self.to_page@,
            action: self.action@,
            success_count: self.success_count,
            failure_count: self.failure_count,
            stale: self.stale,
        }
    }
}

fn dup_action(a: &CandidateAction) -> (r: CandidateAction)
    ensures
        r@ == a@,
{
    CandidateAction {
        id: a.id.clone(),
        label: a.label.clone(),
        kind: a.kind,
        tool_name: a.tool_name.clone(),
        arguments: a.arguments.dup(),
        from_page: a.from_page.clone(),
        expected_target: crate::message::dup_opt(&a.expected_target),
        read_only: a.read_only,
        dangerous: a.dangerous,
    }
}

fn dup_transition(t: &PageTransition) -> (r: PageTransition)
    ensures
        r@ == t@,
{
    PageTransition {
        from_page: t.from_page.clone(),
        to_page: t.to_page.clone(),
        action: dup_action(&t.action),
        success_count: t.success_count,
        failure_count: t.failure_count,
        stale: t.stale,
    }
}

/// The transitions at `idxs`, none stale, lead one after another from `from` to `to`.
pub open spec fn route(ts: Seq<PageTransition>, from: Seq<char>, idxs: Seq<int>, to: Seq<char>) -> bool {
    &&& idxs.len() > 0
    &&& forall|k: int| 0 <= k < idxs.len() ==> 0 <= #[trigger] idxs[k] < ts.len() && !ts[idxs[k]].stale
    &&& ts[idxs[0]].from_page@ == from
    &&& ts[idxs[idxs.len() - 1]].to_page@ == to
    &&& forall|k: int| 0 <= k < idxs.len() - 1 ==> #[trigger] linked(ts, idxs, k)
}

/// The step at `k` of a route arrives where the next one leaves.
pub open spec fn linked(ts: Seq<PageTransition>, idxs: Seq<int>, k: int) -> bool {
    ts[idxs[k]].to_page@ == ts[idxs[k + 1]].from_page@
}

/// Some route leads from `from` to `to`.
pub open spec fn reachable(ts: Seq<PageTransition>, from: Seq<char>, to: Seq<char>) -> bool {
    exists|idxs: Seq<int>| #[trigger] route(ts, from, idxs, to)
}

/// In a set holding `from` and closed under the transitions that are not stale, the page each
/// step of a route reaches is in the set.
proof fn lemma_closed_step(ts: Seq<PageTransition>, set: Seq<Seq<char>>, from: Seq<char>, idxs: Seq<int>, to: Seq<char>, k: int)
    requires
        set.contains(from),
        forall|j: int| 0 <= j < ts.len() && set.contains(#[trigger] ts[j].from_page@) && !ts[j].stale ==> set.contains(ts[j].to_page@),
        route(ts, from, idxs, to),
        0 <= k < idxs.len(),
    ensures
        set.contains(ts[idxs[k]].to_page@),
    decreases k,
{
    assert(0 <= idxs[k] < ts.len() && !ts[idxs[k]].stale);
    if k > 0 {
        lemma_closed_step(ts, set, from, idxs, to, k - 1);
        assert(linked(ts, idxs, k - 1));
    }
}

/// A set of pages holding `from` and closed under the transitions that are not stale holds
/// every page reachable from `from`.
proof fn lemma_closed_holds_reachable(ts: Seq<PageTransition>, set: Seq<Seq<char>>, from: Seq<char>, idxs: Seq<int>, to: Seq<char>)
    requires
        set.contains(from),
        forall|j: int| 0 <= j < ts.len() && set.contains(#[trigger] ts[j].from_page@) && !ts[j].stale ==> set.contains(ts[j].to_page@),
        route(ts, from, idxs, to),
    ensures
        set.contains(to),
{
    lemma_closed_step(ts, set, from, idxs, to, idxs.len() - 1);
}

pub open spec fn as_ints(v: Seq<usize>) -> Seq<int> {
    Seq::new(v.len(), |k: int| v[k] as int)
}

/// A route to `page` (or the empty route when `page` is `from`) followed by a transition out
/// of `page` that is not stale is a route to where that transition leads.
proof fn lemma_route_extend(ts: Seq<PageTransition>, from: Seq<char>, pidx: Seq<int>, page: Seq<char>, j: int)
    requires
        pidx.len() == 0 ==> page == from,
        pidx.len() > 0 ==> route(ts, from, pidx, page),
        0 <= j < ts.len(),
        ts[j].from_page@ == page,
        !ts[j].stale,
    ensures
        route(ts, from, pidx.push(j), ts[j].to_page@),
{
    let idxs = pidx.push(j);
    assert forall|k: int| 0 <= k < idxs.len() implies 0 <= #[trigger] idxs[k] < ts.len() && !ts[idxs[k]].stale by {
        if k < pidx.len() {
            assert(idxs[k] == pidx[k]);
        }
    }
    assert forall|k: int| 0 <= k < idxs.len() - 1 implies #[trigger] linked(ts, idxs, k) by {
        assert(idxs[k] == pidx[k]);
        if k < pidx.len() - 1 {
            assert(idxs[k + 1] == pidx[k + 1]);
            assert(linked(ts, pidx, k));
        }
    }
    if pidx.len() > 0 {
        assert(idxs[0] == pidx[0]);
    }
}

fn extend_path(prev: &Vec<usize>, j: usize) -> (r: Vec<usize>)
    ensures
        as_ints(r@) == as_ints(prev@).push(j as int),
{
    let mut path: Vec<usize> = Vec::new();
    let mut k: usize = 0;
    while k < prev.len()
        invariant
            k <= prev@.len(),
            path@ == prev@.subrange(0, k as int),
        decreases prev.len() - k,
    {
        path.push(prev[k]);
        assert(path@ =~= prev@.subrange(0, k + 1));
        k += 1;
    }
    assert(path@ =~= prev@);
    path.push(j);
    assert(as_ints(path@) =~= as_ints(prev@).push(j as int));
    path
}

fn copy_route(ts: &Vec<PageTransition>, path: &Vec<usize>) -> (r: Vec<PageTransition>)
    requires
        forall|k: int| 0 <= k < path@.len() ==> (#[trigger] path@[k]) < ts@.len(),
    ensures
        r@.len() == path@.len(),
        forall|k: int| 0 <= k < path@.len() ==> (#[trigger] r@[k])@ == ts@[path@[k] as int]@,
{
    let mut out: Vec<PageTransition> = Vec::new();
    let mut m: usize = 0;
    while m < path.len()
        invariant
            m <= path@.len(),
            out@.len() == m,
            forall|k: int| 0 <= k < path@.len() ==> (#[trigger] path@[k]) < ts@.len(),
            forall|k: int| 0 <= k < m ==> (#[trigger] out@[k])@ == ts@[path@[k] as int]@,
        decreases path.len() - m,
    {
        let i = path[m];
        out.push(dup_transition(&ts[i]));
        m += 1;
    }
    out
}

/// How many transitions lead to a page not in `set`.
pub open spec fn open_targets(ts: Seq<PageTransition>, set: Seq<Seq<char>>) -> nat
    decreases ts.len(),
{
    if ts.len() == 0 {
        0
    } else {
        open_targets(ts.drop_last(), set) + (if set.contains(ts.last().to_page@) { 0nat } else { 1nat })
    }
}

/// Adding a page leaves no more transitions leading outside; fewer when one of them led to it.
proof fn lemma_open_targets_push(ts: Seq<PageTransition>, set: Seq<Seq<char>>, x: Seq<char>, j: int)
    requires
        0 <= j < ts.len(),
        ts[j].to_page@ == x,
        !set.contains(x),
    ensures
        open_targets(ts, set.push(x)) < open_targets(ts, set),
    decreases ts.len(),
{
    lemma_open_targets_le(ts.drop_last(), set, x);
    crate::trajectory::lemma_seq_contains_push_pub(set, x, ts.last().to_page@);
    if j < ts.len() - 1 {
        assert(ts.drop_last()[j] == ts[j]);
        lemma_open_targets_push(ts.drop_last(), set, x, j);
    }
}

proof fn lemma_open_targets_le(ts: Seq<PageTransition>, set: Seq<Seq<char>>, x: Seq<char>)
    ensures
        open_targets(ts, set.push(x)) <= open_targets(ts, set),
    decreases ts.len(),
{
    if ts.len() > 0 {
        lemma_open_targets_le(ts.drop_last(), set, x);
        crate::trajectory::lemma_seq_contains_push_pub(set, x, ts.last().to_page@);
    }
}

/// No route from `from` to `to` has fewer than `n` steps.
pub open spec fn no_shorter_route(ts: Seq<PageTransition>, from: Seq<char>, to: Seq<char>, n: int) -> bool {
    forall|idxs: Seq<int>| #[trigger] route(ts, from, idxs, to) ==> idxs.len() >= n
}

/// The lengths of the routes found so far.
spec fn depths_of(paths: Seq<Vec<usize>>) -> Seq<int> {
    Seq::new(paths.len(), |q: int| paths[q]@.len() as int)
}

/// What the breadth-first search keeps: pages are found in order of their distance, each
/// with a shortest route; every page within the current page's distance is found; and the
/// pages before `head` have had all their transitions followed.
spec fn bfs_ok(ts: Seq<PageTransition>, from: Seq<char>, pv: Seq<Seq<char>>, dv: Seq<int>, head: int) -> bool {
    &&& pv.len() == dv.len() && pv.len() > 0 && pv[0] == from && dv[0] == 0 && 0 <= head <= pv.len()
    &&& forall|q1: int, q2: int| 0 <= q1 <= q2 < dv.len() ==> #[trigger] dv[q1] <= #[trigger] dv[q2]
    &&& head < pv.len() ==> forall|q: int| 0 <= q < dv.len() ==> #[trigger] dv[q] <= dv[head] + 1
    &&& forall|q: int, idxs: Seq<int>| 0 <= q < pv.len() && #[trigger] route(ts, from, idxs, pv[q]) ==> idxs.len() >= dv[q]
    &&& head < pv.len() ==> forall|idxs: Seq<int>, w: Seq<char>| #[trigger] route(ts, from, idxs, w) && idxs.len() <= dv[head] ==> pv.contains(w)
    &&& forall|q: int, j: int| 0 <= q < head && 0 <= j < ts.len() && ts[j].from_page@ == #[trigger] pv[q] && !(#[trigger] ts[j]).stale
        ==> pv.contains(ts[j].to_page@)
}

proof fn lemma_route_prefix(ts: Seq<PageTransition>, from: Seq<char>, idxs: Seq<int>, to: Seq<char>)
    requires
        route(ts, from, idxs, to),
        idxs.len() >= 2,
    ensures
        route(ts, from, idxs.drop_last(), ts[idxs[idxs.len() - 1]].from_page@),
{
    let p = idxs.drop_last();
    assert(linked(ts, idxs, idxs.len() - 2));
    assert forall|k: int| 0 <= k < p.len() implies 0 <= #[trigger] p[k] < ts.len() && !ts[p[k]].stale by {
        assert(p[k] == idxs[k]);
    }
    assert forall|k: int| 0 <= k < p.len() - 1 implies #[trigger] linked(ts, p, k) by {
        assert(linked(ts, idxs, k));
    }
}

/// A page reached from the page at `head` over a transition, and not found yet, has no
/// route shorter than one step past the page at `head`.
proof fn lemma_discover(ts: Seq<PageTransition>, from: Seq<char>, pv: Seq<Seq<char>>, dv: Seq<int>, head: int, j: int)
    requires
        bfs_ok(ts, from, pv, dv, head),
        head < pv.len(),
        0 <= j < ts.len(),
        ts[j].from_page@ == pv[head],
        !ts[j].stale,
        !pv.contains(ts[j].to_page@),
    ensures
        no_shorter_route(ts, from, ts[j].to_page@, dv[head] + 1),
{
    let y = ts[j].to_page@;
    let d = dv[head];
    assert forall|idxs: Seq<int>| #[trigger] route(ts, from, idxs, y) implies idxs.len() >= d + 1 by {
        if idxs.len() <= d {
            let last = idxs[idxs.len() - 1];
            let z = ts[last].from_page@;
            if idxs.len() == 1 {
                assert(z == from);
                assert(dv[0] <= dv[head]);
                if head == 0 {
                    assert(false);
                }
                assert(ts[last].from_page@ == pv[0]);
                assert(pv.contains(ts[last].to_page@));
                assert(false);
            } else {
                lemma_route_prefix(ts, from, idxs, y);
                let pre = idxs.drop_last();
                assert(route(ts, from, pre, z));
                assert(pv.contains(z));
                let q = choose|q: int| 0 <= q < pv.len() && pv[q] == z;
                assert(route(ts, from, pre, pv[q]));
                assert(dv[q] <= pre.len());
                if q >= head {
                    assert(dv[head] <= dv[q]);
                    assert(false);
                }
                assert(ts[last].from_page@ == pv[q]);
                assert(pv.contains(ts[last].to_page@));
                assert(false);
            }
        }
    }
}

/// Finding a page with a shortest route one step past the page at `head` keeps the search.
proof fn lemma_found(ts: Seq<PageTransition>, from: Seq<char>, pv: Seq<Seq<char>>, dv: Seq<int>, head: int, y: Seq<char>)
    requires
        bfs_ok(ts, from, pv, dv, head),
        head < pv.len(),
        no_shorter_route(ts, from, y, dv[head] + 1),
    ensures
        bfs_ok(ts, from, pv.push(y), dv.push(dv[head] + 1), head),
{
    let pv2 = pv.push(y);
    let dv2 = dv.push(dv[head] + 1);
    assert forall|q1: int, q2: int| 0 <= q1 <= q2 < dv2.len() implies #[trigger] dv2[q1] <= #[trigger] dv2[q2] by {
        if q2 == dv.len() {
            if q1 < dv.len() {
                assert(dv[q1] <= dv[head] + 1);
            }
        } else {
            assert(dv[q1] <= dv[q2]);
        }
    }
    assert forall|q: int| 0 <= q < dv2.len() implies #[trigger] dv2[q] <= dv2[head] + 1 by {
        if q < dv.len() {
            assert(dv[q] <= dv[head] + 1);
        }
    }
    assert forall|q: int, idxs: Seq<int>| 0 <= q < pv2.len() && #[trigger] route(ts, from, idxs, pv2[q]) implies idxs.len() >= dv2[q] by {
        if q < pv.len() {
            assert(pv2[q] == pv[q]);
        }
    }
    assert forall|x: Seq<char>| pv.contains(x) implies pv2.contains(x) by {
        let q = choose|q: int| 0 <= q < pv.len() && pv[q] == x;
        assert(pv2[q] == x);
    }
    assert forall|q: int, j: int| 0 <= q < head && 0 <= j < ts.len() && ts[j].from_page@ == #[trigger] pv2[q] && !(#[trigger] ts[j]).stale
        implies pv2.contains(ts[j].to_page@) by {
        assert(pv2[q] == pv[q]);
    }
}

/// Once the page at `head` has had all its transitions followed, the search holds at the
/// next page.
proof fn lemma_advance(ts: Seq<PageTransition>, from: Seq<char>, pv: Seq<Seq<char>>, dv: Seq<int>, head: int)
    requires
        bfs_ok(ts, from, pv, dv, head),
        head < pv.len(),
        forall|j: int| 0 <= j < ts.len() && ts[j].from_page@ == pv[head] && !(#[trigger] ts[j]).stale ==> pv.contains(ts[j].to_page@),
    ensures
        bfs_ok(ts, from, pv, dv, head + 1),
{
    let h1 = head + 1;
    assert forall|q: int, j: int| 0 <= q < h1 && 0 <= j < ts.len() && ts[j].from_page@ == #[trigger] pv[q] && !(#[trigger] ts[j]).stale
        implies pv.contains(ts[j].to_page@) by {
        if q < head {
        } else {
            assert(q == head);
        }
    }
    if h1 < pv.len() {
        assert(dv[head] <= dv[h1]);
        assert forall|q: int| 0 <= q < dv.len() implies #[trigger] dv[q] <= dv[h1] + 1 by {
            assert(dv[q] <= dv[head] + 1);
        }
        assert forall|idxs: Seq<int>, w: Seq<char>| #[trigger] route(ts, from, idxs, w) && idxs.len() <= dv[h1] implies pv.contains(w) by {
            if idxs.len() > dv[head] {
                let last = idxs[idxs.len() - 1];
                let z = ts[last].from_page@;
                assert(ts[last].to_page@ == w);
                if idxs.len() == 1 {
                    assert(z == from);
                    assert(ts[last].from_page@ == pv[0]);
                    assert(0 < h1);
                } else {
                    lemma_route_prefix(ts, from, idxs, w);
                    let pre = idxs.drop_last();
                    assert(route(ts, from, pre, z));
                    assert(pv.contains(z));
                    let q = choose|q: int| 0 <= q < pv.len() && pv[q] == z;
                    assert(route(ts, from, pre, pv[q]));
                    assert(dv[q] <= pre.len());
                    if q >= h1 {
                        assert(dv[h1] <= dv[q]);
                        assert(false);
                    }
                    assert(ts[last].from_page@ == pv[q]);
                }
            }
        }
    }
}

impl AppMapMemory {
    /// A shortest-first route of transitions that are not stale from `from_page` to
    /// `target_page`: empty when they are the same page, `None` when no route exists.
    #[verifier::rlimit(40)]
    pub fn plan_path(&self, from_page: &str, target_page: &str) -> (r: Option<Vec<PageTransition>>)
        ensures
            from_page@ == target_page@ ==> (r matches Some(p) && p@.len() == 0),
            from_page@ != target_page@ ==> (r is None <==> !reachable(self.transitions_view(), from_page@, target_page@)),
            from_page@ != target_page@ ==> (r matches Some(p) ==> exists|idxs: Seq<int>| #[trigger] route(self.transitions_view(), from_page@, idxs, target_page@)
                && p@.len() == idxs.len() && forall|k: int| 0 <= k < idxs.len() ==> (#[trigger] p@[k])@ == self.transitions_view()[idxs[k]]@),
            from_page@ != target_page@ ==> (r matches Some(p) ==> no_shorter_route(self.transitions_view(), from_page@, target_page@, p@.len() as int)),
    {
        if str_eq(from_page, target_page) {
            return Some(Vec::new());
        }
        let ghost ts = self.transitions@;
        let mut pages: Vec<String> = Vec::new();
        let mut paths: Vec<Vec<usize>> = Vec::new();
        pages.push(owned(from_page));
        paths.push(Vec::new());
        let mut head: usize = 0;
        proof {
            let pv = views_of_strings(pages@);
            let dv = depths_of(paths@);
            assert(pv[0] == from_page@);
            assert(dv[0] == 0);
        }
        while head < pages.len()
            invariant
                bfs_ok(ts, from_page@, views_of_strings(pages@), depths_of(paths@), head as int),
                ts == self.transitions@,
                from_page@ != target_page@,
                pages@.len() == paths@.len(),
                head <= pages@.len(),
                pages@.len() > 0,
                pages@[0]@ == from_page@,
                paths@[0]@.len() == 0,
                forall|q: int| 1 <= q < pages@.len() ==> #[trigger] route(ts, from_page@, as_ints(paths@[q]@), pages@[q]@),
                forall|q: int| 1 <= q < pages@.len() ==> (#[trigger] paths@[q])@.len() > 0,
                !views_of_strings(pages@).contains(target_page@),
                forall|q: int, j: int| 0 <= q < head && 0 <= j < ts.len() && ts[j].from_page@ == (#[trigger] pages@[q])@ && !(#[trigger] ts[j]).stale
                    ==> views_of_strings(pages@).contains(ts[j].to_page@),
            decreases open_targets(ts, views_of_strings(pages@)), pages@.len() - head,
        {
            let ghost count0 = open_targets(ts, views_of_strings(pages@));
            let ghost len0 = pages@.len();
            let page = pages[head].clone();
            let mut j: usize = 0;
            while j < self.transitions.len()
                invariant
                    ts == self.transitions@,
                    from_page@ != target_page@,
                    pages@.len() == paths@.len(),
                    head < pages@.len(),
                    page@ == pages@[head as int]@,
                    pages@[0]@ == from_page@,
                    paths@[0]@.len() == 0,
                    forall|q: int| 1 <= q < pages@.len() ==> #[trigger] route(ts, from_page@, as_ints(paths@[q]@), pages@[q]@),
                    forall|q: int| 1 <= q < pages@.len() ==> (#[trigger] paths@[q])@.len() > 0,
                    !views_of_strings(pages@).contains(target_page@),
                    forall|q: int, jj: int| 0 <= q < head && 0 <= jj < ts.len() && ts[jj].from_page@ == (#[trigger] pages@[q])@ && !(#[trigger] ts[jj]).stale
                        ==> views_of_strings(pages@).contains(ts[jj].to_page@),
                    forall|jj: int| 0 <= jj < j && ts[jj].from_page@ == page@ && !(#[trigger] ts[jj]).stale
                        ==> views_of_strings(pages@).contains(ts[jj].to_page@),
                    pages@.len() >= len0,
                    open_targets(ts, views_of_strings(pages@)) <= count0,
                    pages@.len() > len0 ==> open_targets(ts, views_of_strings(pages@)) < count0,
                    bfs_ok(ts, from_page@, views_of_strings(pages@), depths_of(paths@), head as int),
                decreases self.transitions.len() - j,
            {
                let t = &self.transitions[j];
                if str_eq(t.from_page.as_str(), page.as_str()) && !t.stale {
                    if !crate::assoc::strings_contain(&pages, t.to_page.as_str()) {
                        let path = extend_path(&paths[head], j);
                        proof {
                            let pv = views_of_strings(pages@);
                            let dv = depths_of(paths@);
                            assert(pv[head as int] == page@);
                            lemma_discover(ts, from_page@, pv, dv, head as int, j as int);
                            assert(as_ints(path@).len() == path@.len());
                            assert(path@.len() == dv[head as int] + 1);
                            let pidx = as_ints(paths@[head as int]@);
                            if head > 0 {
                                assert(route(ts, from_page@, pidx, pages@[head as int]@));
                            }
                            lemma_route_extend(ts, from_page@, pidx, page@, j as int);
                        }
                        if str_eq(t.to_page.as_str(), target_page) {
                            proof {
                                let idxs = as_ints(path@);
                                assert forall|k: int| 0 <= k < path@.len() implies (#[trigger] path@[k]) < ts.len() by {
                                    assert(idxs[k] == path@[k] as int);
                                }
                            }
                            let out = copy_route(&self.transitions, &path);
                            proof {
                                let idxs = as_ints(path@);
                                assert(route(self.transitions_view(), from_page@, idxs, target_page@));
                                assert(out@.len() == idxs.len());
                                assert forall|k: int| 0 <= k < idxs.len() implies (#[trigger] out@[k])@ == self.transitions_view()[idxs[k]]@ by {
                                    assert(idxs[k] == path@[k] as int);
                                }
                            }
                            return Some(out);
                        }
                        let ghost pv0 = views_of_strings(pages@);
                        let ghost dv0 = depths_of(paths@);
                        pages.push(t.to_page.clone());
                        paths.push(path);
                        proof {
                            lemma_found(ts, from_page@, pv0, dv0, head as int, t.to_page@);
                            assert(views_of_strings(pages@) =~= pv0.push(t.to_page@));
                            assert(depths_of(paths@) =~= dv0.push(dv0[head as int] + 1));
                            assert(views_of_strings(pages@) =~= pv0.push(t.to_page@));
                            assert forall|x: Seq<char>| views_of_strings(pages@).contains(x) <==> (pv0.contains(x) || x == t.to_page@) by {
                                crate::trajectory::lemma_seq_contains_push_pub(pv0, t.to_page@, x);
                            }
                            lemma_open_targets_push(ts, pv0, t.to_page@, j as int);
                            assert forall|q: int| 1 <= q < pages@.len() implies #[trigger] route(ts, from_page@, as_ints(paths@[q]@), pages@[q]@) by {
                                if q == pages@.len() - 1 {
                                    assert(paths@[q] == path);
                                }
                            }
                        }
                    }
                }
                j += 1;
            }
            proof {
                let pv = views_of_strings(pages@);
                assert(pv[head as int] == page@);
                lemma_advance(ts, from_page@, pv, depths_of(paths@), head as int);
            }
            head += 1;
        }
        proof {
            let set = views_of_strings(pages@);
            assert(set[0] == from_page@);
            assert forall|j: int| 0 <= j < ts.len() && set.contains(#[trigger] ts[j].from_page@) && !ts[j].stale implies set.contains(ts[j].to_page@) by {
                let q = choose|q: int| 0 <= q < set.len() && set[q] == ts[j].from_page@;
                assert(pages@[q]@ == ts[j].from_page@);
            }
            if reachable(ts, from_page@, target_page@) {
                let idxs = choose|idxs: Seq<int>| #[trigger] route(ts, from_page@, idxs, target_page@);
                lemma_closed_holds_reachable(ts, set, from_page@, idxs, target_page@);
            }
        }
        None
    }
}


/// `to` is `from`, or a route of at most `n` transitions leads there.
pub open spec fn within_hops(ts: Seq<PageTransition>, from: Seq<char>, to: Seq<char>, n: nat) -> bool {
    from == to || exists|idxs: Seq<int>| #[trigger] route(ts, from, idxs, to) && idxs.len() <= n
}

impl AppMapMemory {
    /// The pages found from `start_id` by following transitions that are not stale, at most
    /// `hops` of them, each page once, `start_id` first.
    #[verifier::rlimit(40)]
    fn reachable_pages(&self, start_id: &str, hops: usize) -> (r: Vec<String>)
        ensures
            r@.len() > 0,
            r@[0]@ == start_id@,
            views_of_strings(r@).no_duplicates(),
            forall|i: int| 0 <= i < r@.len() ==> within_hops(self.transitions_view(), start_id@, #[trigger] r@[i]@, hops as nat),
    {
        let ghost ts = self.transitions@;
        let mut seen: Vec<String> = Vec::new();
        let mut depths: Vec<usize> = Vec::new();
        let mut paths: Vec<Vec<usize>> = Vec::new();
        seen.push(owned(start_id));
        depths.push(0);
        paths.push(Vec::new());
        let mut head: usize = 0;
        proof {
            assert(views_of_strings(seen@) =~= seq![start_id@]);
        }
        while head < seen.len()
            invariant
                ts == self.transitions@,
                seen@.len() == depths@.len(),
                seen@.len() == paths@.len(),
                head <= seen@.len(),
                seen@.len() > 0,
                seen@[0]@ == start_id@,
                paths@[0]@.len() == 0,
                views_of_strings(seen@).no_duplicates(),
                forall|q: int| 0 <= q < seen@.len() ==> #[trigger] depths@[q] <= hops && paths@[q]@.len() == depths@[q],
                forall|q: int| 1 <= q < seen@.len() ==> #[trigger] route(ts, start_id@, as_ints(paths@[q]@), seen@[q]@),
            decreases open_targets(ts, views_of_strings(seen@)), seen@.len() - head,
        {
            let ghost count0 = open_targets(ts, views_of_strings(seen@));
            let ghost len0 = seen@.len();
            let page = seen[head].clone();
            let depth = depths[head];
            if depth < hops {
                let mut j: usize = 0;
                while j < self.transitions.len()
                    invariant
                        ts == self.transitions@,
                        seen@.len() == depths@.len(),
                        seen@.len() == paths@.len(),
                        head < seen@.len(),
                        page@ == seen@[head as int]@,
                        depth == depths@[head as int],
                        depth < hops,
                        seen@[0]@ == start_id@,
                        paths@[0]@.len() == 0,
                        views_of_strings(seen@).no_duplicates(),
                        forall|q: int| 0 <= q < seen@.len() ==> #[trigger] depths@[q] <= hops && paths@[q]@.len() == depths@[q],
                        forall|q: int| 1 <= q < seen@.len() ==> #[trigger] route(ts, start_id@, as_ints(paths@[q]@), seen@[q]@),
                        seen@.len() >= len0,
                        open_targets(ts, views_of_strings(seen@)) <= count0,
                        seen@.len() > len0 ==> open_targets(ts, views_of_strings(seen@)) < count0,
                    decreases self.transitions.len() - j,
                {
                    let t = &self.transitions[j];
                    if str_eq(t.from_page.as_str(), page.as_str()) && !t.stale
                        && !crate::assoc::strings_contain(&seen, t.to_page.as_str()) {
                        let path = extend_path(&paths[head], j);
                        proof {
                            let pidx = as_ints(paths@[head as int]@);
                            if head > 0 {
                                assert(route(ts, start_id@, pidx, seen@[head as int]@));
                            } else {
                                assert(pidx.len() == 0);
                            }
                            if pidx.len() == 0 && head > 0 {
                                assert(route(ts, start_id@, pidx, seen@[head as int]@));
                            }
                            if pidx.len() > 0 || head == 0 {
                                lemma_route_extend(ts, start_id@, pidx, page@, j as int);
                            }
                        }
                        let ghost sv0 = views_of_strings(seen@);
                        seen.push(t.to_page.clone());
                        depths.push(depth + 1);
                        paths.push(path);
                        proof {
                            assert(views_of_strings(seen@) =~= sv0.push(t.to_page@));
                            lemma_open_targets_push(ts, sv0, t.to_page@, j as int);
                            assert(views_of_strings(seen@).no_duplicates()) by {
                                let sv = views_of_strings(seen@);
                                assert forall|p: int, q: int| 0 <= p < sv.len() && 0 <= q < sv.len() && p != q implies sv[p] != sv[q] by {
                                    if p == sv0.len() {
                                        assert(sv[q] == sv0[q]);
                                    } else if q == sv0.len() {
                                        assert(sv[p] == sv0[p]);
                                    } else {
                                        assert(sv[p] == sv0[p] && sv[q] == sv0[q]);
                                    }
                                }
                            }
                            assert forall|q: int| 0 <= q < seen@.len() implies #[trigger] depths@[q] <= hops && paths@[q]@.len() == depths@[q] by {
                                if q == seen@.len() - 1 {
                                    assert(paths@[q] == path);
                                    assert(as_ints(path@).len() == path@.len());
                                }
                            }
                            assert forall|q: int| 1 <= q < seen@.len() implies #[trigger] route(ts, start_id@, as_ints(paths@[q]@), seen@[q]@) by {
                                if q == seen@.len() - 1 {
                                    assert(paths@[q] == path);
                                }
                            }
                        }
                    }
                    j += 1;
                }
            }
            head += 1;
        }
        proof {
            assert forall|i: int| 0 <= i < seen@.len() implies within_hops(self.transitions_view(), start_id@, #[trigger] seen@[i]@, hops as nat) by {
                if i > 0 {
                    let idxs = as_ints(paths@[i]@);
                    assert(depths@[i] <= hops && paths@[i]@.len() == depths@[i]);
                    assert(idxs.len() == paths@[i]@.len());
                    assert(route(self.transitions_view(), start_id@, idxs, seen@[i]@));
                    assert(route(self.transitions_view(), start_id@, idxs, seen@[i]@) && idxs.len() <= hops);
                }
            }
        }
        seen
    }
}

/// What an agent is shown of the map around a page.
#[derive(Debug)]
pub struct LocalMapView {
    pub current_page: Option<String>,
    pub nodes: Vec<PageNode>,
    pub transitions: Vec<PageTransition>,
    pub candidate_actions: Vec<CandidateAction>,
    pub omitted_node_count: usize,
}

fn dup_elements(v: &Vec<UiElementSummary>) -> (r: Vec<UiElementSummary>)
    ensures
        elements_view(r@) == elements_view(v@),
{
    let mut out: Vec<UiElementSummary> = Vec::new();
    let mut i: usize = 0;
    while i < v.len()
        invariant
            i <= v@.len(),
            out@.len() == i,
            forall|k: int| 0 <= k < i ==> (#[trigger] out@[k])@ == v@[k]@,
        decreases v.len() - i,
    {
        out.push(dup_element(&v[i]));
        i += 1;
    }
    assert(elements_view(out@) =~= elements_view(v@));
    out
}

fn dup_page(p: &PageNode) -> (r: PageNode)
    ensures
        r@ == p@,
{
    PageNode {
        id: p.id.clone(),
        package: p.package.clone(),
        summary: p.summary.clone(),
        fingerprint: p.fingerprint.clone(),
        key_buttons: dup_elements(&p.key_buttons),
        input_fields: dup_elements(&p.input_fields),
        navigation_entries: dup_elements(&p.navigation_entries),
        dangerous_actions: dup_elements(&p.dangerous_actions),
        visits: p.visits,
        stale: p.stale,
        last_seen_step: p.last_seen_step,
    }
}

pub open spec fn pages_view_of(v: Seq<PageNode>) -> Seq<PageV> {
    Seq::new(v.len(), |i: int| v[i]@)
}

pub open spec fn transitions_view_of(v: Seq<PageTransition>) -> Seq<TransitionV> {
    Seq::new(v.len(), |i: int| v[i]@)
}

/// The pages, in id order, whose ids are among `a` or `b`.
pub open spec fn pages_among(pages: Seq<(Seq<char>, PageV)>, a: Seq<Seq<char>>, b: Seq<Seq<char>>) -> Seq<PageV>
    decreases pages.len(),
{
    if pages.len() == 0 {
        Seq::empty()
    } else if a.contains(pages.last().0) || b.contains(pages.last().0) {
        pages_among(pages.drop_last(), a, b).push(pages.last().1)
    } else {
        pages_among(pages.drop_last(), a, b)
    }
}

/// The transitions, in order, that are not stale and join two of the listed pages.
pub open spec fn transitions_among(ts: Seq<PageTransition>, ids: Seq<Seq<char>>) -> Seq<TransitionV>
    decreases ts.len(),
{
    if ts.len() == 0 {
        Seq::empty()
    } else if !ts.last().stale && ids.contains(ts.last().from_page@) && ids.contains(ts.last().to_page@) {
        transitions_among(ts.drop_last(), ids).push(ts.last()@)
    } else {
        transitions_among(ts.drop_last(), ids)
    }
}

/// The elements a page keeps, list after list.
pub open spec fn page_elements(p: PageV) -> Seq<ElementV> {
    p.key_buttons + p.input_fields + p.navigation_entries + p.dangerous_actions
}

fn page_elements_from_node(node: &PageNode) -> (r: Vec<UiElementSummary>)
    ensures
        elements_view(r@) == page_elements(node@),
{
    let mut a = dup_elements(&node.key_buttons);
    let mut b = dup_elements(&node.input_fields);
    let mut c = dup_elements(&node.navigation_entries);
    let mut d = dup_elements(&node.dangerous_actions);
    let ghost (av, bv, cv, dv) = (elements_view(a@), elements_view(b@), elements_view(c@), elements_view(d@));
    a.append(&mut b);
    a.append(&mut c);
    a.append(&mut d);
    assert(elements_view(a@) =~= av + bv + cv + dv);
    a
}

/// The ids of pages, in order.
pub open spec fn page_ids(v: Seq<PageV>) -> Seq<Seq<char>> {
    Seq::new(v.len(), |i: int| v[i].id)
}

/// A local view of the map from `start`: the pages in `reach` or among `found`, the
/// transitions among them, the actions from `start`, and how many pages were left out.
pub open spec fn local_view_ok(
    pages: Seq<(Seq<char>, PageV)>,
    ts: Seq<PageTransition>,
    start: Seq<char>,
    reach: Seq<Seq<char>>,
    found: Seq<Seq<char>>,
    v: LocalMapView,
) -> bool {
    let nodes = pages_among(pages, reach, found);
    &&& v.current_page matches Some(c) && c@ == start
    &&& pages_view_of(v.nodes@) == nodes
    &&& transitions_view_of(v.transitions@) == transitions_among(ts, page_ids(nodes))
    &&& actions_view(v.candidate_actions@) == (match assoc_get(pages, start) {
        Some(p) => candidate_actions_of(p.id, page_elements(p)),
        None => Seq::empty(),
    })
    &&& v.omitted_node_count as int == pages.len() - nodes.len()
}

/// What an optional string slice holds.
pub open spec fn str_opt_view(o: Option<&str>) -> Option<Seq<char>> {
    match o {
        Some(q) => Some(q@),
        None => None,
    }
}

/// `v` is the local view from `start` built on the pages `reach` within `hops` transitions
/// of it (`start` first) and on the search `hits` for the task query, if there is one.
pub open spec fn local_view_from(
    pages: Seq<(Seq<char>, PageV)>,
    ts: Seq<PageTransition>,
    start: Seq<char>,
    hops: nat,
    query: Option<Seq<char>>,
    reach: Seq<Seq<char>>,
    hits: Seq<SearchHit>,
    v: LocalMapView,
) -> bool {
    &&& reach.len() > 0 && reach[0] == start
    &&& forall|i: int| 0 <= i < reach.len() ==> within_hops(ts, start, #[trigger] reach[i], hops)
    &&& query matches Some(q) ==> search_ok(pages, q, 4, hits)
    &&& query is None ==> hits.len() == 0
    &&& local_view_ok(pages, ts, start, reach, hit_ids(hits), v)
}

impl AppMapMemory {
    /// What an agent is shown around a page (the given one, else the current one): the pages
    /// within `hops` transitions and those a task query finds (at most four), in id order;
    /// the transitions among them that are not stale; the actions from the page; and how many
    /// pages were left out. With no page to start from, nothing is shown and every page is
    /// left out.
    #[verifier::spinoff_prover]
    pub fn local_view(&self, current_page: Option<&str>, hops: usize, task_query: Option<&str>) -> (r: LocalMapView)
        requires
            self.wf(),
            task_query matches Some(q) ==> q@.len() <= usize::MAX / 4,
        ensures
            (current_page is None && self.current_view() is None) ==> (r.current_page is None && r.nodes@.len() == 0
                && r.transitions@.len() == 0 && r.candidate_actions@.len() == 0 && r.omitted_node_count == self.pages_view().len()),
            current_page matches Some(c) ==> (r.current_page matches Some(x) && x@ == c@),
            current_page is None ==> (self.current_view() matches Some(s) ==> (r.current_page matches Some(x) && x@ == s)),
            r.current_page matches Some(x) ==> exists|reach: Seq<Seq<char>>, hits: Seq<SearchHit>|
                #[trigger] local_view_from(self.pages_view(), self.transitions_view(), x@, hops as nat, str_opt_view(task_query), reach, hits, r),
    {
        let start: String = match current_page {
            Some(c) => owned(c),
            None => match &self.current_page {
                Some(c) => c.clone(),
                None => {
                    return LocalMapView {
                        current_page: None,
                        nodes: Vec::new(),
                        transitions: Vec::new(),
                        candidate_actions: Vec::new(),
                        omitted_node_count: self.pages.len(),
                    };
                },
            },
        };
        let reach = self.reachable_pages(start.as_str(), hops);
        let hits = match task_query {
            Some(q) => self.semantic_search(q, 4),
            None => Vec::new(),
        };
        let mut found: Vec<String> = Vec::new();
        let mut h: usize = 0;
        while h < hits.len()
            invariant
                h <= hits@.len(),
                found@.len() == h,
                forall|k: int| 0 <= k < h ==> (#[trigger] found@[k])@ == hits@[k].page_id@,
            decreases hits.len() - h,
        {
            found.push(hits[h].page_id.clone());
            h += 1;
        }
        assert(views_of_strings(found@) =~= hit_ids(hits@));
        let ghost pv = pairs_view(self.pages@);
        let ghost rv = views_of_strings(reach@);
        let ghost fv = views_of_strings(found@);
        let mut nodes: Vec<PageNode> = Vec::new();
        let mut i: usize = 0;
        while i < self.pages.len()
            invariant
                i <= self.pages@.len(),
                pv == pairs_view(self.pages@),
                rv == views_of_strings(reach@),
                fv == views_of_strings(found@),
                pages_view_of(nodes@) == pages_among(pv.subrange(0, i as int), rv, fv),
                nodes@.len() <= i,
            decreases self.pages.len() - i,
        {
            proof {
                let sub = pv.subrange(0, i + 1);
                assert(sub.drop_last() =~= pv.subrange(0, i as int));
                assert(sub.last() == pv[i as int]);
                assert(crate::assoc::strings_view(reach@) == rv);
                assert(crate::assoc::strings_view(found@) == fv);
            }
            if crate::assoc::strings_contain(&reach, self.pages[i].0.as_str()) || crate::assoc::strings_contain(&found, self.pages[i].0.as_str()) {
                let ghost n0 = pages_view_of(nodes@);
                nodes.push(dup_page(&self.pages[i].1));
                assert(pages_view_of(nodes@) =~= n0.push(pv[i as int].1));
            }
            i += 1;
        }
        assert(pv.subrange(0, pv.len() as int) =~= pv);
        let ghost nv = pages_view_of(nodes@);
        let mut ids: Vec<String> = Vec::new();
        let mut k: usize = 0;
        while k < nodes.len()
            invariant
                k <= nodes@.len(),
                ids@.len() == k,
                forall|m: int| 0 <= m < k ==> (#[trigger] ids@[m])@ == nodes@[m].id@,
            decreases nodes.len() - k,
        {
            ids.push(nodes[k].id.clone());
            k += 1;
        }
        assert(views_of_strings(ids@) =~= page_ids(nv));
        let ghost iv = views_of_strings(ids@);
        let ghost ts = self.transitions@;
        let mut visible: Vec<PageTransition> = Vec::new();
        let mut j: usize = 0;
        while j < self.transitions.len()
            invariant
                j <= self.transitions@.len(),
                ts == self.transitions@,
                iv == views_of_strings(ids@),
                transitions_view_of(visible@) == transitions_among(ts.subrange(0, j as int), iv),
            decreases self.transitions.len() - j,
        {
            proof {
                let sub = ts.subrange(0, j + 1);
                assert(sub.drop_last() =~= ts.subrange(0, j as int));
                assert(sub.last() == ts[j as int]);
                assert(crate::assoc::strings_view(ids@) == iv);
            }
            let t = &self.transitions[j];
            if !t.stale && crate::assoc::strings_contain(&ids, t.from_page.as_str()) && crate::assoc::strings_contain(&ids, t.to_page.as_str()) {
                let ghost v0 = transitions_view_of(visible@);
                visible.push(dup_transition(t));
                assert(transitions_view_of(visible@) =~= v0.push(ts[j as int]@));
            }
            j += 1;
        }
        assert(ts.subrange(0, ts.len() as int) =~= ts);
        let candidate_actions = match assoc_find(&self.pages, start.as_str()) {
            Some(node) => {
                let elements = page_elements_from_node(node);
                build_candidate_actions(node.id.as_str(), &elements)
            },
            None => {
                let v: Vec<CandidateAction> = Vec::new();
                assert(actions_view(v@) =~= Seq::empty());
                v
            },
        };
        let omitted = self.pages.len() - nodes.len();
        let r = LocalMapView {
            current_page: Some(start),
            nodes,
            transitions: visible,
            candidate_actions,
            omitted_node_count: omitted,
        };
        proof {
            let sv = r.current_page->0@;
            assert forall|i: int| 0 <= i < rv.len() implies within_hops(self.transitions_view(), sv, #[trigger] rv[i], hops as nat) by {
                assert(rv[i] == reach@[i]@);
            }
            assert(local_view_from(self.pages_view(), self.transitions_view(), sv, hops as nat, str_opt_view(task_query), rv, hits@, r));
        }
        r
    }
}

/// The length of a text in UTF-8 bytes.
pub open spec fn byte_len(s: Seq<char>) -> nat {
    vstd::utf8::encode_utf8(s).len()
}

/// The sum of counts.
pub open spec fn total(s: Seq<nat>) -> nat
    decreases s.len(),
{
    if s.len() == 0 {
        0
    } else {
        total(s.drop_last()) + s.last()
    }
}

proof fn lemma_total_prefix(s: Seq<nat>, i: int)
    requires
        0 <= i <= s.len(),
    ensures
        total(s.subrange(0, i)) <= total(s),
    decreases s.len(),
{
    if i < s.len() {
        lemma_total_prefix(s.drop_last(), i);
        assert(s.drop_last().subrange(0, i) =~= s.subrange(0, i));
    } else {
        assert(s.subrange(0, i) =~= s);
    }
}

proof fn lemma_total_step(s: Seq<nat>, i: int)
    requires
        0 <= i < s.len(),
    ensures
        total(s.subrange(0, i + 1)) == total(s.subrange(0, i)) + s[i],
        s[i] <= total(s),
        total(s.subrange(0, i + 1)) <= total(s),
{
    assert(s.subrange(0, i + 1).drop_last() =~= s.subrange(0, i));
    lemma_total_prefix(s, i + 1);
}

/// The tokens a text of `chars` bytes is estimated at: a quarter of its bytes, at least one.
pub open spec fn tokens_for(chars: nat) -> nat {
    if chars / 4 >= 1 {
        chars / 4
    } else {
        1
    }
}

pub open spec fn node_weights(ns: Seq<PageNode>) -> Seq<nat> {
    Seq::new(ns.len(), |i: int| byte_len(ns[i].summary@))
}

pub open spec fn transition_weights(ts: Seq<PageTransition>) -> Seq<nat> {
    Seq::new(ts.len(), |i: int| byte_len(ts[i].from_page@) + byte_len(ts[i].to_page@) + byte_len(ts[i].action.label@))
}

pub open spec fn action_weights(a: Seq<CandidateAction>) -> Seq<nat> {
    Seq::new(a.len(), |i: int| byte_len(a[i].label@) + byte_len(a[i].tool_name@))
}

pub open spec fn label_weights(es: Seq<ElementV>) -> Seq<nat> {
    Seq::new(es.len(), |i: int| byte_len(label_of(es[i])))
}

/// The bytes of text a local view shows: page summaries, the ends and labels of
/// transitions, and the labels and tools of actions.
pub open spec fn view_chars(v: LocalMapView) -> nat {
    total(node_weights(v.nodes@)) + total(transition_weights(v.transitions@)) + total(action_weights(v.candidate_actions@))
}

/// The bytes of text a page holds: its summary and the labels of its buttons, inputs and
/// dangerous actions.
pub open spec fn page_weight(p: PageV) -> nat {
    byte_len(p.summary) + total(label_weights(p.key_buttons)) + total(label_weights(p.input_fields))
        + total(label_weights(p.dangerous_actions))
}

/// The bytes of text the whole map holds: every page, and the ends and labels of every
/// transition.
pub open spec fn full_map_chars(pages: Seq<(Seq<char>, PageV)>, ts: Seq<PageTransition>) -> nat {
    total(Seq::new(pages.len(), |i: int| page_weight(pages[i].1))) + total(transition_weights(ts))
}

fn bytes_of(s: &String) -> (r: usize)
    ensures
        r == byte_len(s@),
{
    s.as_str().as_bytes().len()
}

/// Adds `x` to `acc`, unless the sum passes the machine's limit.
fn add_within(acc: usize, x: usize) -> (r: Option<usize>)
    ensures
        r matches Some(n) ==> n == acc + x,
        r is None <==> acc + x > usize::MAX,
{
    acc.checked_add(x)
}

/// A count as a `usize`, where it fits in one.
pub open spec fn fitting(n: nat) -> Option<usize> {
    if n <= usize::MAX {
        Some(n as usize)
    } else {
        None
    }
}

fn summaries_chars(ns: &Vec<PageNode>) -> (r: Option<usize>)
    ensures
        r == fitting(total(node_weights(ns@))),
{
    let ghost w = node_weights(ns@);
    let mut acc: usize = 0;
    let mut i: usize = 0;
    while i < ns.len()
        invariant
            i <= ns@.len(),
            w == node_weights(ns@),
            acc == total(w.subrange(0, i as int)),
        decreases ns.len() - i,
    {
        proof {
            lemma_total_step(w, i as int);
        }
        acc = match add_within(acc, bytes_of(&ns[i].summary)) {
            Some(n) => n,
            None => return None,
        };
        i += 1;
    }
    proof {
        assert(w.subrange(0, w.len() as int) =~= w);
    }
    Some(acc)
}

fn transitions_chars(ts: &Vec<PageTransition>) -> (r: Option<usize>)
    ensures
        r == fitting(total(transition_weights(ts@))),
{
    let ghost w = transition_weights(ts@);
    let mut acc: usize = 0;
    let mut i: usize = 0;
    while i < ts.len()
        invariant
            i <= ts@.len(),
            w == transition_weights(ts@),
            acc == total(w.subrange(0, i as int)),
        decreases ts.len() - i,
    {
        proof {
            lemma_total_step(w, i as int);
        }
        let t = &ts[i];
        let a = bytes_of(&t.from_page);
        let b = bytes_of(&t.to_page);
        let c = bytes_of(&t.action.label);
        let s1 = match add_within(acc, a) {
            Some(n) => n,
            None => return None,
        };
        let s2 = match add_within(s1, b) {
            Some(n) => n,
            None => return None,
        };
        acc = match add_within(s2, c) {
            Some(n) => n,
            None => return None,
        };
        i += 1;
    }
    proof {
        assert(w.subrange(0, w.len() as int) =~= w);
    }
    Some(acc)
}

fn actions_chars(v: &Vec<CandidateAction>) -> (r: Option<usize>)
    ensures
        r == fitting(total(action_weights(v@))),
{
    let ghost w = action_weights(v@);
    let mut acc: usize = 0;
    let mut i: usize = 0;
    while i < v.len()
        invariant
            i <= v@.len(),
            w == action_weights(v@),
            acc == total(w.subrange(0, i as int)),
        decreases v.len() - i,
    {
        proof {
            lemma_total_step(w, i as int);
        }
        let a = bytes_of(&v[i].label);
        let b = bytes_of(&v[i].tool_name);
        let s1 = match add_within(acc, a) {
            Some(n) => n,
            None => return None,
        };
        acc = match add_within(s1, b) {
            Some(n) => n,
            None => return None,
        };
        i += 1;
    }
    proof {
        assert(w.subrange(0, w.len() as int) =~= w);
    }
    Some(acc)
}

fn labels_chars(es: &Vec<UiElementSummary>) -> (r: Option<usize>)
    ensures
        r == fitting(total(label_weights(elements_view(es@)))),
{
    let ghost w = label_weights(elements_view(es@));
    let mut acc: usize = 0;
    let mut i: usize = 0;
    while i < es.len()
        invariant
            i <= es@.len(),
            w == label_weights(elements_view(es@)),
            acc == total(w.subrange(0, i as int)),
        decreases es.len() - i,
    {
        proof {
            lemma_total_step(w, i as int);
        }
        let label = element_label(&es[i]);
        acc = match add_within(acc, bytes_of(&label)) {
            Some(n) => n,
            None => return None,
        };
        i += 1;
    }
    proof {
        assert(w.subrange(0, w.len() as int) =~= w);
    }
    Some(acc)
}

fn tokens_of_chars(chars: usize) -> (r: usize)
    ensures
        r == tokens_for(chars as nat),
{
    let q = chars / 4;
    if q >= 1 {
        q
    } else {
        1
    }
}

/// The bytes a local view shows, where the count fits in a `usize`.
fn view_chars_within(view: &LocalMapView) -> (r: Option<usize>)
    ensures
        r == fitting(view_chars(*view)),
{
    let a = match summaries_chars(&view.nodes) {
        Some(n) => n,
        None => return None,
    };
    let b = match transitions_chars(&view.transitions) {
        Some(n) => n,
        None => return None,
    };
    let c = match actions_chars(&view.candidate_actions) {
        Some(n) => n,
        None => return None,
    };
    let s = match add_within(a, b) {
        Some(n) => n,
        None => return None,
    };
    add_within(s, c)
}

impl AppMapMemory {
    /// The tokens a local view is estimated at (see [`tokens_for`]).
    pub fn estimate_context_tokens(view: &LocalMapView) -> (r: usize)
        requires
            view_chars(*view) <= usize::MAX,
        ensures
            r == tokens_for(view_chars(*view)),
    {
        match view_chars_within(view) {
            Some(n) => tokens_of_chars(n),
            None => 0,
        }
    }

    /// The tokens a local view is estimated at, or `None` where its byte count does not fit
    /// in a `usize`.
    pub fn try_estimate_context_tokens(view: &LocalMapView) -> (r: Option<usize>)
        ensures
            r matches Some(n) ==> view_chars(*view) <= usize::MAX && n == tokens_for(view_chars(*view)),
            r is None <==> view_chars(*view) > usize::MAX,
    {
        match view_chars_within(view) {
            Some(n) => Some(tokens_of_chars(n)),
            None => None,
        }
    }

    /// The bytes of text the whole map holds, where the count fits in a `usize`.
    fn full_map_chars_within(&self) -> (r: Option<usize>)
        ensures
            r == fitting(full_map_chars(self.pages_view(), self.transitions_view())),
    {
        let ghost pv = self.pages_view();
        let ghost w = Seq::new(pv.len(), |i: int| page_weight(pv[i].1));
        let mut acc: usize = 0;
        let mut i: usize = 0;
        while i < self.pages.len()
            invariant
                i <= self.pages@.len(),
                pv == self.pages_view(),
                pv == pairs_view(self.pages@),
                w == Seq::new(pv.len(), |i: int| page_weight(pv[i].1)),
                acc == total(w.subrange(0, i as int)),
            decreases self.pages.len() - i,
        {
            proof {
                lemma_total_step(w, i as int);
            }
            let node = &self.pages[i].1;
            proof {
                assert(pv[i as int].1 == node@);
            }
            let a = bytes_of(&node.summary);
            let b = match labels_chars(&node.key_buttons) {
                Some(n) => n,
                None => return None,
            };
            let c = match labels_chars(&node.input_fields) {
                Some(n) => n,
                None => return None,
            };
            let d = match labels_chars(&node.dangerous_actions) {
                Some(n) => n,
                None => return None,
            };
            let s1 = match add_within(acc, a) {
                Some(n) => n,
                None => return None,
            };
            let s2 = match add_within(s1, b) {
                Some(n) => n,
                None => return None,
            };
            let s3 = match add_within(s2, c) {
                Some(n) => n,
                None => return None,
            };
            acc = match add_within(s3, d) {
                Some(n) => n,
                None => return None,
            };
            i += 1;
        }
        proof {
            assert(w.subrange(0, w.len() as int) =~= w);
        }
        let t = match transitions_chars(&self.transitions) {
            Some(n) => n,
            None => return None,
        };
        add_within(acc, t)
    }

    /// The tokens the whole map is estimated at (see [`tokens_for`]).
    pub fn estimate_full_map_tokens(&self) -> (r: usize)
        requires
            full_map_chars(self.pages_view(), self.transitions_view()) <= usize::MAX,
        ensures
            r == tokens_for(full_map_chars(self.pages_view(), self.transitions_view())),
    {
        match self.full_map_chars_within() {
            Some(n) => tokens_of_chars(n),
            None => 0,
        }
    }

    /// The tokens the whole map is estimated at, or `None` where its byte count does not fit
    /// in a `usize`.
    pub fn try_estimate_full_map_tokens(&self) -> (r: Option<usize>)
        ensures
            r matches Some(n) ==> full_map_chars(self.pages_view(), self.transitions_view()) <= usize::MAX
                && n == tokens_for(full_map_chars(self.pages_view(), self.transitions_view())),
            r is None <==> full_map_chars(self.pages_view(), self.transitions_view()) > usize::MAX,
    {
        match self.full_map_chars_within() {
            Some(n) => Some(tokens_of_chars(n)),
            None => None,
        }
    }
}


/// The value under a key just set is the one set.
proof fn lemma_get_inserted(fields: Seq<(Seq<char>, JsonV)>, key: Seq<char>, value: JsonV)
    ensures
        crate::json::fields_get(crate::json::fields_insert(fields, key, value), key) == Some(value),
    decreases fields.len(),
{
    if fields.len() == 0 {
    } else if fields[0].0 == key {
    } else if crate::text::seq_lt(key, fields[0].0) {
        assert((seq![(key, value)] + fields)[0] == (key, value));
    } else {
        lemma_get_inserted(fields.drop_first(), key, value);
        let r = seq![fields[0]] + crate::json::fields_insert(fields.drop_first(), key, value);
        assert(r[0] == fields[0]);
        assert(r.drop_first() =~= crate::json::fields_insert(fields.drop_first(), key, value));
    }
}

/// A screen description: its package and its elements.
pub(crate) fn screen(package: &str, nodes: Vec<Json>) -> (r: Json)
    ensures
        element_list(r.view()).len() == nodes@.len(),
{
    let n = Json::Array(nodes);
    let ghost nv = n.view();
    let mut o = Json::new_object();
    o.set("package", Json::str_of(package));
    let ghost before = o.view();
    o.set("nodes", n);
    proof {
        lemma_get_inserted(before->Object_0, "nodes"@, nv);
    }
    o
}

/// An element of a screen description: its text and class, whether it is clickable and
/// editable where that is said, and its bounds where they are given.
pub(crate) fn ui_node(text: &str, class: &str, clickable: Option<bool>, editable: Option<bool>, bounds: Option<&str>) -> Json {
    let mut o = Json::new_object();
    o.set("text", Json::str_of(text));
    o.set("class", Json::str_of(class));
    if let Some(c) = clickable {
        o.set("clickable", Json::Bool(c));
    }
    if let Some(e) = editable {
        o.set("editable", Json::Bool(e));
    }
    if let Some(b) = bounds {
        o.set("bounds", Json::str_of(b));
    }
    o
}

/// Arguments naming a point on the screen.
fn point_args(x: u64, y: u64) -> Json {
    let mut o = Json::new_object();
    o.set("x", Json::Number(crate::json::JsonNumber::PosInt(x)));
    o.set("y", Json::Number(crate::json::JsonNumber::PosInt(y)));
    o
}

/// A click on `label` from `from` that leads to `to`.
fn sample_action(id: &str, label: &str, kind: CandidateActionKind, tool_name: &str, arguments: Json, from: &str, to: &str) -> (r: CandidateAction)
    ensures
        r.id@ == id@ && r.label@ == label@ && r.tool_name@ == tool_name@ && r.kind == kind,
{
    CandidateAction {
        id: owned(id),
        label: owned(label),
        kind,
        tool_name: owned(tool_name),
        arguments,
        from_page: owned(from),
        expected_target: Some(owned(to)),
        read_only: false,
        dangerous: false,
    }
}

/// The sample's transitions: a click on "Orders" from home to the order list, a click on
/// "Order #2048" from the list to the order's details, and "Open Notes" from the details to
/// the notes page.
pub open spec fn sample_links(ts: Seq<PageTransition>, home: Seq<char>, orders: Seq<char>, detail: Seq<char>, notes: Seq<char>) -> bool {
    &&& ts.len() == 3
    &&& ts[0].from_page@ == home && ts[0].to_page@ == orders && ts[0].action.label@ == "Orders"@ && ts[0].action.tool_name@ == "click_at"@
    &&& ts[1].from_page@ == orders && ts[1].to_page@ == detail && ts[1].action.label@ == "Order #2048"@ && ts[1].action.tool_name@ == "click_at"@
    &&& ts[2].from_page@ == detail && ts[2].to_page@ == notes && ts[2].action.label@ == "Open Notes"@ && ts[2].action.tool_name@ == "open_app"@
}

/// Records the sample's three transitions, each of which worked: home to orders, orders to
/// an order's details, and the details to the notes app.
fn link_sample_pages(map: &mut AppMapMemory, home_id: &str, orders_id: &str, detail_id: &str, notes_id: &str)
    requires
        old(map).transitions_view().len() == 0,
    ensures
        final(map).pages_view() == old(map).pages_view(),
        final(map).current_view() == old(map).current_view(),
        final(map).steps_view() == old(map).steps_view(),
        final(map).wf() == old(map).wf(),
        final(map).transitions_view().len() == 3,
        forall|k: int| 0 <= k < 3 ==> !(#[trigger] final(map).transitions_view()[k]).stale
            && final(map).transitions_view()[k].success_count == 1 && final(map).transitions_view()[k].failure_count == 0,
        final(map).transitions_view()[0].from_page@ == home_id@,
        sample_links(final(map).transitions_view(), home_id@, orders_id@, detail_id@, notes_id@),
{
    let a1 = sample_action("click:orders", "Orders", CandidateActionKind::ClickText, "click_at", point_args(166, 200), home_id, orders_id);
    map.record_transition(home_id, orders_id, a1, true);
    let a2 = sample_action("click:order-2048", "Order #2048", CandidateActionKind::ClickText, "click_at", point_args(420, 250), orders_id, detail_id);
    proof {
        reveal_strlit("click:orders");
        reveal_strlit("click:order-2048");
        assert(map.transitions_view()[0] == map.transitions_view().last());
        assert(map.transitions_view()[0].action.id@ == "click:orders"@);
        assert(a2.id@ == "click:order-2048"@);
        assert("click:orders"@.len() == 12);
        assert("click:order-2048"@.len() == 16);
        assert(!same_route(map.transitions_view()[0], orders_id@, detail_id@, a2.id@));
    }
    map.record_transition(orders_id, detail_id, a2, true);
    let mut text_args = Json::new_object();
    text_args.set("text", Json::str_of("Notes"));
    let a3 = sample_action("open-app:notes", "Open Notes", CandidateActionKind::OpenApp, "open_app", text_args, detail_id, notes_id);
    proof {
        reveal_strlit("open-app:notes");
        assert(map.transitions_view()[0] == map.transitions_view().drop_last()[0]);
        assert(map.transitions_view()[1] == map.transitions_view().last());
        assert(map.transitions_view()[0].action.id@ == "click:orders"@);
        assert(map.transitions_view()[1].action.id@ == "click:order-2048"@);
        assert(a3.id@ == "open-app:notes"@);
        assert("open-app:notes"@.len() == 14);
        assert("click:orders"@.len() == 12);
        assert("click:order-2048"@.len() == 16);
        assert(!same_route(map.transitions_view()[0], detail_id@, notes_id@, a3.id@));
        assert(!same_route(map.transitions_view()[1], detail_id@, notes_id@, a3.id@));
    }
    let ghost t2 = map.transitions_view();
    map.record_transition(detail_id, notes_id, a3, true);
    proof {
        assert(t2[0].from_page@ == home_id@);
        assert(map.transitions_view()[0] == t2[0]);
        assert(map.transitions_view()[1] == t2[1]);
    }
}

/// A small map of a shop app and a notes app: a home page, an order list, an order's details
/// and a notes page, joined by three transitions that worked, with the home page current.
pub fn sample_cross_app_map() -> (r: AgentCoreResult<AppMapMemory>)
    ensures
        r matches Ok(m) && m.wf() && m.steps_view() == 4 && m.transitions_view().len() == 3
            && m.current_view() == Some(m.transitions_view()[0].from_page@)
            && (exists|orders: Seq<char>, detail: Seq<char>, notes: Seq<char>|
                sample_links(m.transitions_view(), m.transitions_view()[0].from_page@, orders, detail, notes))
            && forall|k: int| 0 <= k < 3 ==> !(#[trigger] m.transitions_view()[k]).stale
                && m.transitions_view()[k].success_count == 1 && m.transitions_view()[k].failure_count == 0,
{
    let mut map = AppMapMemory::new();
    let home = match map.observe_ui_state(
        &screen("com.example.shop", vec![
            ui_node("Search", "android.widget.EditText", Some(true), Some(true), Some("32,90,900,150")),
            ui_node("Orders", "android.widget.Button", Some(true), None, Some("32,170,300,230")),
            ui_node("Account", "android.widget.Button", Some(true), None, Some("780,170,1040,230")),
        ]),
        Some("buy a charger"),
    ) {
        Ok(u) => u,
        Err(e) => return Err(e),
    };
    let orders = match map.observe_ui_state(
        &screen("com.example.shop", vec![
            ui_node("Order #2048", "android.widget.TextView", Some(true), None, Some("40,220,800,280")),
            ui_node("Back", "android.widget.Button", Some(true), None, Some("30,60,150,120")),
        ]),
        Some("order list"),
    ) {
        Ok(u) => u,
        Err(e) => return Err(e),
    };
    let detail = match map.observe_ui_state(
        &screen("com.example.shop", vec![
            ui_node("Order Details", "android.widget.TextView", Some(false), None, None),
            ui_node("Share", "android.widget.Button", Some(true), None, None),
            ui_node("Cancel Order", "android.widget.Button", Some(true), None, None),
        ]),
        Some("order details"),
    ) {
        Ok(u) => u,
        Err(e) => return Err(e),
    };
    let notes = match map.observe_ui_state(
        &screen("com.example.notes", vec![
            ui_node("New note", "android.widget.Button", Some(true), None, None),
            ui_node("Search notes", "android.widget.EditText", Some(true), Some(true), None),
        ]),
        Some("save order summary"),
    ) {
        Ok(u) => u,
        Err(e) => return Err(e),
    };
    let home_id = home.page_id;
    link_sample_pages(&mut map, home_id.as_str(), orders.page_id.as_str(), detail.page_id.as_str(), notes.page_id.as_str());
    map.current_page = Some(home_id);
    Ok(map)
}

} // verus!
