//! Hooks: the named points at which handlers may observe or change a run, the payloads
//! handed to them, and the registry that keeps handlers in order, runs point handlers one
//! after another and composes wrapper layers around a terminal service.

use vstd::prelude::*;
use crate::error::{AgentCoreError, AgentCoreResult};
use crate::json::{Json, JsonV, fields_insert, fields_set, keys_sorted, object_view, dup_fields, json_dup};
use crate::message::{RunMessage, MessageV, messages_view, dup_messages};
use crate::text::{decimal, dup_string, lemma_seq_lt_irrefl, lemma_seq_lt_trans, owned, seq_lt, str_eq, str_lt, to_decimal};

verus! {

/// std's `Debug` text of a string: the string between double quotes, each character
/// escaped as `char::escape_debug` does.
pub uninterp spec fn debug_quoted(s: Seq<char>) -> Seq<char>;

/// std's `Debug` formatting of a `str` (`format!("{:?}", s)`); its text is the name above.
#[verifier::external_body]
pub(crate) fn debug_quoted_text(s: &str) -> (r: String)
    ensures
        r@ == debug_quoted(s@),
{
    format!("{:?}", s)
}

/// Whether a hook observes a step (point) or runs around it (wrapper).
#[derive(Debug, Clone, Copy, PartialEq, Eq, Structural)]
pub enum HookKind {
    Point,
    Wrapper,
}

/// The hooks a run exposes, and custom ones named by the caller.
#[derive(Debug, Clone, PartialEq, Eq)]
pub enum HookName {
    Input,
    BeforeAgentStart,
    Context,
    BeforeProviderRequest,
    AfterProviderResponse,
    ToolCall,
    ToolResult,
    BeforeSessionCommit,
    ProviderRequest,
    ToolExecution,
    NodeExecution,
    CustomPoint(String),
    CustomWrapper(String),
}

pub enum HookV {
    Input,
    BeforeAgentStart,
    Context,
    BeforeProviderRequest,
    AfterProviderResponse,
    ToolCall,
    ToolResult,
    BeforeSessionCommit,
    ProviderRequest,
    ToolExecution,
    NodeExecution,
    CustomPoint(Seq<char>),
    CustomWrapper(Seq<char>),
}

/// Provider requests, tool executions, node executions and custom wrappers are wrapper
/// hooks; every other hook is a point hook.
pub open spec fn hook_kind(h: HookV) -> HookKind {
    match h {
        HookV::ProviderRequest | HookV::ToolExecution | HookV::NodeExecution | HookV::CustomWrapper(_) => HookKind::Wrapper,
        _ => HookKind::Point,
    }
}

/// The `Debug` text of a hook name.
pub open spec fn hook_debug(h: HookV) -> Seq<char> {
    match h {
        HookV::Input => "Input"@,
        HookV::BeforeAgentStart => "BeforeAgentStart"@,
        HookV::Context => "Context"@,
        HookV::BeforeProviderRequest => "BeforeProviderRequest"@,
        HookV::AfterProviderResponse => "AfterProviderResponse"@,
        HookV::ToolCall => "ToolCall"@,
        HookV::ToolResult => "ToolResult"@,
        HookV::BeforeSessionCommit => "BeforeSessionCommit"@,
        HookV::ProviderRequest => "ProviderRequest"@,
        HookV::ToolExecution => "ToolExecution"@,
        HookV::NodeExecution => "NodeExecution"@,
        HookV::CustomPoint(s) => "CustomPoint("@ + debug_quoted(s) + ")"@,
        HookV::CustomWrapper(s) => "CustomWrapper("@ + debug_quoted(s) + ")"@,
    }
}

impl HookName {
    pub open spec fn view(&self) -> HookV {
        match self {
            HookName::Input => HookV::Input,
            HookName::BeforeAgentStart => HookV::BeforeAgentStart,
            HookName::Context => HookV::Context,
            HookName::BeforeProviderRequest => HookV::BeforeProviderRequest,
            HookName::AfterProviderResponse => HookV::AfterProviderResponse,
            HookName::ToolCall => HookV::ToolCall,
            HookName::ToolResult => HookV::ToolResult,
            HookName::BeforeSessionCommit => HookV::BeforeSessionCommit,
            HookName::ProviderRequest => HookV::ProviderRequest,
            HookName::ToolExecution => HookV::ToolExecution,
            HookName::NodeExecution => HookV::NodeExecution,
            HookName::CustomPoint(s) => HookV::CustomPoint(s@),
            HookName::CustomWrapper(s) => HookV::CustomWrapper(s@),
        }
    }

    pub fn kind(&self) -> (r: HookKind)
        ensures
            r == hook_kind(self@),
    {
        match self {
            HookName::ProviderRequest | HookName::ToolExecution | HookName::NodeExecution | HookName::CustomWrapper(_) => HookKind::Wrapper,
            HookName::Input
            | HookName::BeforeAgentStart
            | HookName::Context
            | HookName::BeforeProviderRequest
            | HookName::AfterProviderResponse
            | HookName::ToolCall
            | HookName::ToolResult
            | HookName::BeforeSessionCommit
            | HookName::CustomPoint(_) => HookKind::Point,
        }
    }

    /// Whether two hook names are the same name.
    pub fn same_as(&self, other: &HookName) -> (r: bool)
        ensures
            r == (self@ == other@),
    {
        match (self, other) {
            (HookName::Input, HookName::Input) => true,
            (HookName::BeforeAgentStart, HookName::BeforeAgentStart) => true,
            (HookName::Context, HookName::Context) => true,
            (HookName::BeforeProviderRequest, HookName::BeforeProviderRequest) => true,
            (HookName::AfterProviderResponse, HookName::AfterProviderResponse) => true,
            (HookName::ToolCall, HookName::ToolCall) => true,
            (HookName::ToolResult, HookName::ToolResult) => true,
            (HookName::BeforeSessionCommit, HookName::BeforeSessionCommit) => true,
            (HookName::ProviderRequest, HookName::ProviderRequest) => true,
            (HookName::ToolExecution, HookName::ToolExecution) => true,
            (HookName::NodeExecution, HookName::NodeExecution) => true,
            (HookName::CustomPoint(a), HookName::CustomPoint(b)) => str_eq(a.as_str(), b.as_str()),
            (HookName::CustomWrapper(a), HookName::CustomWrapper(b)) => str_eq(a.as_str(), b.as_str()),
            _ => false,
        }
    }

    pub fn dup(&self) -> (r: HookName)
        ensures
            r@ == self@,
    {
        match self {
            HookName::Input => HookName::Input,
            HookName::BeforeAgentStart => HookName::BeforeAgentStart,
            HookName::Context => HookName::Context,
            HookName::BeforeProviderRequest => HookName::BeforeProviderRequest,
            HookName::AfterProviderResponse => HookName::AfterProviderResponse,
            HookName::ToolCall => HookName::ToolCall,
            HookName::ToolResult => HookName::ToolResult,
            HookName::BeforeSessionCommit => HookName::BeforeSessionCommit,
            HookName::ProviderRequest => HookName::ProviderRequest,
            HookName::ToolExecution => HookName::ToolExecution,
            HookName::NodeExecution => HookName::NodeExecution,
            HookName::CustomPoint(s) => HookName::CustomPoint(dup_string(s)),
            HookName::CustomWrapper(s) => HookName::CustomWrapper(dup_string(s)),
        }
    }

    /// The name's `Debug` text.
    pub fn debug_text(&self) -> (r: String)
        ensures
            r@ == hook_debug(self@),
    {
        match self {
            HookName::Input => owned("Input"),
            HookName::BeforeAgentStart => owned("BeforeAgentStart"),
            HookName::Context => owned("Context"),
            HookName::BeforeProviderRequest => owned("BeforeProviderRequest"),
            HookName::AfterProviderResponse => owned("AfterProviderResponse"),
            HookName::ToolCall => owned("ToolCall"),
            HookName::ToolResult => owned("ToolResult"),
            HookName::BeforeSessionCommit => owned("BeforeSessionCommit"),
            HookName::ProviderRequest => owned("ProviderRequest"),
            HookName::ToolExecution => owned("ToolExecution"),
            HookName::NodeExecution => owned("NodeExecution"),
            HookName::CustomPoint(s) => {
                let mut t = owned("CustomPoint(");
                t.append(debug_quoted_text(s.as_str()).as_str());
                t.append(")");
                t
            },
            HookName::CustomWrapper(s) => {
                let mut t = owned("CustomWrapper(");
                t.append(debug_quoted_text(s.as_str()).as_str());
                t.append(")");
                t
            },
        }
    }
}

pub open spec fn not_kind_text(h: HookV, kind: Seq<char>) -> Seq<char> {
    "hook "@ + hook_debug(h) + " is not a "@ + kind + " hook"@
}

fn not_kind_message(hook: &HookName, kind: &str) -> (r: String)
    ensures
        r@ == not_kind_text(hook@, kind@),
{
    let mut t = owned("hook ");
    t.append(hook.debug_text().as_str());
    t.append(" is not a ");
    t.append(kind);
    t.append(" hook");
    t
}

/// The data handed to a point handler.
#[derive(Debug)]
pub struct HookPayload {
    pub hook: HookName,
    pub data: Json,
    pub metadata: Vec<(String, Json)>,
}

pub struct PayloadV {
    pub hook: HookV,
    pub data: JsonV,
    pub metadata: Seq<(Seq<char>, JsonV)>,
}

impl HookPayload {
    pub open spec fn view(&self) -> PayloadV {
        PayloadV { hook: self.hook@, data: self.data.view(), metadata: object_view(self.metadata@) }
    }

    pub fn new(hook: HookName) -> (r: HookPayload)
        ensures
            r@ == (PayloadV { hook: hook@, data: JsonV::Null, metadata: Seq::empty() }),
    {
        let r = HookPayload { hook, data: Json::Null, metadata: Vec::new() };
        assert(object_view(r.metadata@) =~= Seq::empty());
        r
    }

    pub fn with_data(self, data: Json) -> (r: HookPayload)
        ensures
            r@ == (PayloadV { data: data.view(), ..self@ }),
    {
        let mut p = self;
        p.data = data;
        p
    }

    /// Sets one metadata entry (the metadata is a map ordered by key).
    pub fn with_metadata(self, key: &str, value: Json) -> (r: HookPayload)
        requires
            keys_sorted(object_view(self.metadata@)),
        ensures
            r@ == (PayloadV { metadata: fields_insert(self@.metadata, key@, value.view()), ..self@ }),
            keys_sorted(object_view(r.metadata@)),
    {
        let mut p = self;
        fields_set(&mut p.metadata, key, value);
        p
    }

    pub fn dup(&self) -> (r: HookPayload)
        ensures
            r@ == self@,
    {
        HookPayload { hook: self.hook.dup(), data: json_dup(&self.data), metadata: dup_fields(&self.metadata) }
    }
}

/// An event a handler asks the run to emit.
#[derive(Debug)]
pub struct HookEventRequest {
    pub name: String,
    pub data: Json,
}

pub struct EventRequestV {
    pub name: Seq<char>,
    pub data: JsonV,
}

impl HookEventRequest {
    pub open spec fn view(&self) -> EventRequestV {
        EventRequestV { name: self.name@, data: self.data.view() }
    }

    pub fn new(name: &str, data: Json) -> (r: HookEventRequest)
        ensures
            r@ == (EventRequestV { name: name@, data: data.view() }),
    {
        HookEventRequest { name: owned(name), data }
    }
}

pub open spec fn event_requests_view(v: Seq<HookEventRequest>) -> Seq<EventRequestV> {
    Seq::new(v.len(), |i: int| v[i]@)
}

/// What a point handler decides.
#[derive(Debug)]
pub enum PointHookDecision {
    Continue,
    Rewrite(HookPayload),
    Block { reason: String },
    Stop { reason: String },
    Emit { event: HookEventRequest },
}

pub enum DecisionV {
    Continue,
    Rewrite(PayloadV),
    Block(Seq<char>),
    Stop(Seq<char>),
    Emit(EventRequestV),
}

impl PointHookDecision {
    pub open spec fn view(&self) -> DecisionV {
        match self {
            PointHookDecision::Continue => DecisionV::Continue,
            PointHookDecision::Rewrite(p) => DecisionV::Rewrite(p@),
            PointHookDecision::Block { reason } => DecisionV::Block(reason@),
            PointHookDecision::Stop { reason } => DecisionV::Stop(reason@),
            PointHookDecision::Emit { event } => DecisionV::Emit(event@),
        }
    }
}

/// The request handed through a chain of wrapper layers.
#[derive(Debug)]
pub struct WrapperRequest {
    pub hook: HookName,
    pub data: Json,
    pub metadata: Vec<(String, Json)>,
}

impl WrapperRequest {
    pub open spec fn view(&self) -> PayloadV {
        PayloadV { hook: self.hook@, data: self.data.view(), metadata: object_view(self.metadata@) }
    }

    pub fn new(hook: HookName) -> (r: WrapperRequest)
        ensures
            r@ == (PayloadV { hook: hook@, data: JsonV::Null, metadata: Seq::empty() }),
    {
        let r = WrapperRequest { hook, data: Json::Null, metadata: Vec::new() };
        assert(object_view(r.metadata@) =~= Seq::empty());
        r
    }

    pub fn with_data(self, data: Json) -> (r: WrapperRequest)
        ensures
            r@ == (PayloadV { data: data.view(), ..self@ }),
    {
        let mut p = self;
        p.data = data;
        p
    }

    pub fn with_metadata(self, key: &str, value: Json) -> (r: WrapperRequest)
        requires
            keys_sorted(object_view(self.metadata@)),
        ensures
            r@ == (PayloadV { metadata: fields_insert(self@.metadata, key@, value.view()), ..self@ }),
            keys_sorted(object_view(r.metadata@)),
    {
        let mut p = self;
        fields_set(&mut p.metadata, key, value);
        p
    }
}

/// What a wrapped step answers.
#[derive(Debug)]
pub struct WrapperResponse {
    pub data: Json,
    pub metadata: Vec<(String, Json)>,
    pub messages: Vec<RunMessage>,
}

pub struct ResponseV {
    pub data: JsonV,
    pub metadata: Seq<(Seq<char>, JsonV)>,
    pub messages: Seq<MessageV>,
}

impl WrapperResponse {
    pub open spec fn view(&self) -> ResponseV {
        ResponseV { data: self.data.view(), metadata: object_view(self.metadata@), messages: messages_view(self.messages@) }
    }

    pub fn new(data: Json) -> (r: WrapperResponse)
        ensures
            r@ == (ResponseV { data: data.view(), metadata: Seq::empty(), messages: Seq::empty() }),
    {
        let r = WrapperResponse { data, metadata: Vec::new(), messages: Vec::new() };
        assert(object_view(r.metadata@) =~= Seq::empty());
        assert(messages_view(r.messages@) =~= Seq::empty());
        r
    }

    pub fn with_metadata(self, key: &str, value: Json) -> (r: WrapperResponse)
        requires
            keys_sorted(object_view(self.metadata@)),
        ensures
            r@ == (ResponseV { metadata: fields_insert(self@.metadata, key@, value.view()), ..self@ }),
            keys_sorted(object_view(r.metadata@)),
    {
        let mut p = self;
        fields_set(&mut p.metadata, key, value);
        p
    }
}

/// The outcome of a wrapped step.
#[derive(Debug)]
pub enum WrapperResult {
    Continue(WrapperResponse),
    Rewrite(WrapperResponse),
    Retry { reason: String },
    Recover { messages: Vec<RunMessage> },
    Stop { reason: String },
    Fail { reason: String },
}

/// Whether a handler runs at a point or around a step.
#[derive(Debug, Clone, Copy, PartialEq, Eq, Structural)]
pub enum HandlerKind {
    Point,
    Wrapper,
}

/// The band a handler belongs to; bands run in the order declared here.
#[derive(Debug, Clone, Copy, PartialEq, Eq, Structural)]
pub enum HandlerScope {
    CorePreGuard,
    Extension,
    Definition,
    Run,
    CorePostGuard,
}

pub open spec fn scope_rank(s: HandlerScope) -> int {
    match s {
        HandlerScope::CorePreGuard => 0,
        HandlerScope::Extension => 1,
        HandlerScope::Definition => 2,
        HandlerScope::Run => 3,
        HandlerScope::CorePostGuard => 4,
    }
}

fn scope_rank_of(s: HandlerScope) -> (r: u8)
    ensures
        r == scope_rank(s),
{
    match s {
        HandlerScope::CorePreGuard => 0,
        HandlerScope::Extension => 1,
        HandlerScope::Definition => 2,
        HandlerScope::Run => 3,
        HandlerScope::CorePostGuard => 4,
    }
}

impl Default for HandlerScope {
    fn default() -> (r: HandlerScope)
        ensures
            r == HandlerScope::Extension,
    {
        HandlerScope::Extension
    }
}

/// A registered handler: its id, the hook it serves, its kind, and where it runs.
#[derive(Debug, PartialEq, Eq)]
pub struct HandlerRegistration {
    pub id: String,
    pub hook: HookName,
    pub kind: HandlerKind,
    pub order: i32,
    pub scope: HandlerScope,
}

pub struct RegV {
    pub id: Seq<char>,
    pub hook: HookV,
    pub kind: HandlerKind,
    pub order: i32,
    pub scope: HandlerScope,
}

impl HandlerRegistration {
    pub open spec fn view(&self) -> RegV {
        RegV { id: self.id@, hook: self.hook@, kind: self.kind, order: self.order, scope: self.scope }
    }

    pub fn dup(&self) -> (r: HandlerRegistration)
        ensures
            r@ == self@,
    {
        HandlerRegistration { id: dup_string(&self.id), hook: self.hook.dup(), kind: self.kind, order: self.order, scope: self.scope }
    }
}

/// Handlers run by scope, then by order, then by id (as strings).
pub open spec fn reg_lt(a: RegV, b: RegV) -> bool {
    ||| scope_rank(a.scope) < scope_rank(b.scope)
    ||| scope_rank(a.scope) == scope_rank(b.scope) && a.order < b.order
    ||| scope_rank(a.scope) == scope_rank(b.scope) && a.order == b.order && seq_lt(a.id, b.id)
}

/// The bands run in the fixed order CorePreGuard, Extension, Definition, Run,
/// CorePostGuard: a registration in an earlier band runs before one in a later band,
/// whatever their orders and ids.
pub proof fn lemma_scope_bands_in_order(a: RegV, b: RegV)
    ensures
        a.scope == HandlerScope::CorePreGuard && b.scope == HandlerScope::Extension ==> reg_lt(a, b) && !reg_lt(b, a),
        a.scope == HandlerScope::Extension && b.scope == HandlerScope::Definition ==> reg_lt(a, b) && !reg_lt(b, a),
        a.scope == HandlerScope::Definition && b.scope == HandlerScope::Run ==> reg_lt(a, b) && !reg_lt(b, a),
        a.scope == HandlerScope::Run && b.scope == HandlerScope::CorePostGuard ==> reg_lt(a, b) && !reg_lt(b, a),
        a.scope == HandlerScope::CorePreGuard && b.scope != HandlerScope::CorePreGuard ==> reg_lt(a, b),
        a.scope == HandlerScope::CorePostGuard && b.scope != HandlerScope::CorePostGuard ==> reg_lt(b, a),
{
}

pub proof fn lemma_reg_lt_irrefl(a: RegV)
    ensures
        !reg_lt(a, a),
{
    lemma_seq_lt_irrefl(a.id);
}

pub proof fn lemma_reg_lt_trans(a: RegV, b: RegV, c: RegV)
    requires
        reg_lt(a, b),
        reg_lt(b, c),
    ensures
        reg_lt(a, c),
{
    if scope_rank(a.scope) == scope_rank(b.scope) && scope_rank(b.scope) == scope_rank(c.scope) && a.order == b.order && b.order == c.order {
        lemma_seq_lt_trans(a.id, b.id, c.id);
    }
}

/// No later registration runs before an earlier one.
pub open spec fn regs_sorted(s: Seq<RegV>) -> bool {
    forall|i: int, j: int| 0 <= i < j < s.len() ==> !reg_lt(#[trigger] s[j], #[trigger] s[i])
}

/// `p` is where `x` goes in `s`: after every registration that does not run after it, and
/// before every one that does.
pub open spec fn insert_at(s: Seq<RegV>, x: RegV, p: int) -> bool {
    &&& 0 <= p <= s.len()
    &&& forall|k: int| 0 <= k < p ==> !reg_lt(x, #[trigger] s[k])
    &&& forall|k: int| p <= k < s.len() ==> reg_lt(x, #[trigger] s[k])
}

/// Keeping the order when a registration is placed where it belongs.
pub proof fn lemma_insert_keeps_sorted(s: Seq<RegV>, x: RegV, p: int)
    requires
        regs_sorted(s),
        insert_at(s, x, p),
    ensures
        regs_sorted(s.insert(p, x)),
{
    let t = s.insert(p, x);
    assert forall|i: int, j: int| 0 <= i < j < t.len() implies !reg_lt(#[trigger] t[j], #[trigger] t[i]) by {
        if j < p {
            assert(t[i] == s[i] && t[j] == s[j]);
        } else if j == p {
            assert(t[i] == s[i]);
        } else if i == p {
            assert(t[j] == s[j - 1]);
            assert(reg_lt(x, s[p]));
            if reg_lt(s[j - 1], x) {
                if j - 1 == p {
                    lemma_reg_lt_trans(x, s[p], x);
                    lemma_reg_lt_irrefl(x);
                } else {
                    lemma_reg_lt_trans(s[j - 1], x, s[p]);
                }
            }
        } else if i < p {
            assert(t[i] == s[i] && t[j] == s[j - 1]);
        } else {
            assert(t[i] == s[i - 1] && t[j] == s[j - 1]);
        }
    }
}

/// The id of the `n`-th registration.
pub open spec fn handler_id(n: nat) -> Seq<char> {
    "handler-"@ + decimal(n)
}

/// A handler's answer as a decision, `None` for an error.
pub open spec fn decision_of(r: AgentCoreResult<PointHookDecision>) -> Option<DecisionV> {
    match r {
        Ok(d) => Some(d@),
        Err(_) => None,
    }
}

/// A handler consulted at a point hook. Its decision is its own; the registry applies it.
pub trait PointHandler {
    /// Whether the handler, handed `payload`, may answer `d` (`None` for an error). By
    /// default any answer may come; a handler verified with the library can say more.
    open spec fn answers(&self, payload: PayloadV, d: Option<DecisionV>) -> bool {
        true
    }

    fn handle(&self, payload: HookPayload) -> (r: AgentCoreResult<PointHookDecision>)
        ensures
            self.answers(payload@, decision_of(r));
}

/// A step wrapped by layers: it takes a request and answers it.
pub trait WrapperService {
    /// Whether the service, handed `request`, may give `r`. By default any result may
    /// come; a service verified with the library can say more.
    open spec fn responds(&self, request: PayloadV, r: AgentCoreResult<WrapperResult>) -> bool {
        true
    }

    fn call(&self, request: WrapperRequest) -> (r: AgentCoreResult<WrapperResult>)
        ensures
            self.responds(request@, r);
}

/// The rest of a wrapper chain, handed to a layer.
pub struct WrapperNext {
    inner: Box<dyn WrapperService>,
}

impl WrapperNext {
    pub fn new(inner: Box<dyn WrapperService>) -> (r: WrapperNext) {
        WrapperNext { inner }
    }

    /// The chain that ends in `service`.
    pub fn of<S: WrapperService + 'static>(service: S) -> (r: WrapperNext) {
        WrapperNext { inner: Box::new(service) }
    }

    /// Whether the chain, handed `request`, may give `r`: what its outermost service may give.
    pub closed spec fn responds(&self, request: PayloadV, r: AgentCoreResult<WrapperResult>) -> bool {
        self.inner.responds(request, r)
    }

    /// Hands the request, unchanged, to the chain's outermost service.
    pub fn run(&self, request: WrapperRequest) -> (r: AgentCoreResult<WrapperResult>)
        ensures
            self.responds(request@, r),
    {
        self.inner.call(request)
    }
}

/// A layer that wraps the rest of a chain into a new chain.
pub trait WrapperLayer {
    /// Whether `outer` may be the chain the layer makes around `inner`. By default any
    /// chain may come; a layer verified with the library can say more.
    open spec fn wraps(&self, inner: WrapperNext, outer: WrapperNext) -> bool {
        true
    }

    fn layer(&self, inner: WrapperNext) -> (r: WrapperNext)
        ensures
            self.wraps(inner, r);
}

/// A wrapper handler given a request and the rest of the chain.
pub trait WrapperHandler {
    /// Whether the handler, handed `request` and the rest of the chain `next`, may give `r`.
    /// By default any result may come; a handler verified with the library can say more.
    open spec fn handles(&self, request: PayloadV, next: WrapperNext, r: AgentCoreResult<WrapperResult>) -> bool {
        true
    }

    fn handle(&self, request: WrapperRequest, next: &WrapperNext) -> (r: AgentCoreResult<WrapperResult>)
        ensures
            self.handles(request@, *next, r);
}

/// A layer made of one wrapper handler.
pub struct FnWrapperLayer<H: WrapperHandler> {
    handler: std::sync::Arc<H>,
}

impl<H: WrapperHandler> FnWrapperLayer<H> {
    /// The handler the layer consults.
    pub closed spec fn handler_view(&self) -> H {
        *self.handler
    }

    pub fn new(handler: H) -> (r: FnWrapperLayer<H>)
        ensures
            r.handler_view() == handler,
    {
        FnWrapperLayer { handler: std::sync::Arc::new(handler) }
    }
}

struct HandlerService<H: WrapperHandler> {
    handler: std::sync::Arc<H>,
    next: WrapperNext,
}

impl<H: WrapperHandler> WrapperService for HandlerService<H> {
    /// What the handler may give, handed the request and the rest of the chain.
    closed spec fn responds(&self, request: PayloadV, r: AgentCoreResult<WrapperResult>) -> bool {
        self.handler.handles(request, self.next, r)
    }

    fn call(&self, request: WrapperRequest) -> (r: AgentCoreResult<WrapperResult>) {
        self.handler.handle(request, &self.next)
    }
}

impl<H: WrapperHandler + 'static> WrapperLayer for FnWrapperLayer<H> {
    /// The chain made is the handler around `inner`; a chain's service is held behind a
    /// trait object, so nothing more is said of `outer` here.
    open spec fn wraps(&self, inner: WrapperNext, outer: WrapperNext) -> bool {
        true
    }

    fn layer(&self, inner: WrapperNext) -> (r: WrapperNext) {
        WrapperNext::of(HandlerService { handler: self.handler.clone(), next: inner })
    }
}

/// How a point hook run ended.
#[derive(Debug, PartialEq, Eq)]
pub enum PointHookStatus {
    Continued,
    Blocked { reason: String },
    Stopped { reason: String },
}

pub enum StatusV {
    Continued,
    Blocked(Seq<char>),
    Stopped(Seq<char>),
}

impl PointHookStatus {
    pub open spec fn view(&self) -> StatusV {
        match self {
            PointHookStatus::Continued => StatusV::Continued,
            PointHookStatus::Blocked { reason } => StatusV::Blocked(reason@),
            PointHookStatus::Stopped { reason } => StatusV::Stopped(reason@),
        }
    }
}

/// The payload after every handler ran, how the run ended, and the events asked for.
#[derive(Debug)]
pub struct PointHookOutcome {
    pub payload: HookPayload,
    pub status: PointHookStatus,
    pub events: Vec<HookEventRequest>,
}

pub struct OutcomeV {
    pub payload: PayloadV,
    pub status: StatusV,
    pub events: Seq<EventRequestV>,
}

impl PointHookOutcome {
    pub open spec fn view(&self) -> OutcomeV {
        OutcomeV { payload: self.payload@, status: self.status@, events: event_requests_view(self.events@) }
    }
}

/// A point run between handlers: still going with the current payload and the events so
/// far, ended by a handler, failed in a handler, or refused because a handler renamed the hook.
pub enum PointRunV {
    Running(PayloadV, Seq<EventRequestV>),
    Finished(OutcomeV),
    HandlerFailed,
    Renamed,
}

/// One handler's answer (`None` for an error) applied to a point run.
pub open spec fn point_step(st: PointRunV, hook: HookV, d: Option<DecisionV>) -> PointRunV {
    match st {
        PointRunV::Running(p, evs) => match d {
            None => PointRunV::HandlerFailed,
            Some(DecisionV::Continue) => PointRunV::Running(p, evs),
            Some(DecisionV::Rewrite(np)) => if np.hook == hook {
                PointRunV::Running(np, evs)
            } else {
                PointRunV::Renamed
            },
            Some(DecisionV::Emit(e)) => PointRunV::Running(p, evs.push(e)),
            Some(DecisionV::Block(r)) => PointRunV::Finished(OutcomeV { payload: p, status: StatusV::Blocked(r), events: evs }),
            Some(DecisionV::Stop(r)) => PointRunV::Finished(OutcomeV { payload: p, status: StatusV::Stopped(r), events: evs }),
        },
        _ => st,
    }
}

/// The answers of the handlers, in order, applied to a run that starts with `payload`.
pub open spec fn point_run(payload: PayloadV, ds: Seq<Option<DecisionV>>) -> PointRunV
    decreases ds.len(),
{
    if ds.len() == 0 {
        PointRunV::Running(payload, Seq::empty())
    } else {
        point_step(point_run(payload, ds.drop_last()), payload.hook, ds.last())
    }
}

/// What `run_point` returns for a run that ended in `st`.
pub open spec fn point_result(st: PointRunV, r: AgentCoreResult<PointHookOutcome>) -> bool {
    match st {
        PointRunV::Running(p, evs) => r matches Ok(o) && o@ == (OutcomeV { payload: p, status: StatusV::Continued, events: evs }),
        PointRunV::Finished(o) => r matches Ok(x) && x@ == o,
        PointRunV::Renamed => r matches Err(AgentCoreError::InvalidInput(t)) && t@ == "point handler cannot rewrite hook name"@,
        PointRunV::HandlerFailed => r is Err,
    }
}

/// How many of the registrations serve `hook`.
pub open spec fn serving(s: Seq<RegV>, hook: HookV) -> nat
    decreases s.len(),
{
    if s.len() == 0 {
        0
    } else {
        serving(s.drop_last(), hook) + if s.last().hook == hook { 1nat } else { 0nat }
    }
}

proof fn lemma_serving_prefix(s: Seq<RegV>, hook: HookV, i: int)
    requires
        0 <= i <= s.len(),
    ensures
        serving(s.subrange(0, i), hook) <= serving(s, hook),
    decreases s.len() - i,
{
    if i < s.len() {
        lemma_serving_prefix(s, hook, i + 1);
        assert(s.subrange(0, i + 1).drop_last() =~= s.subrange(0, i));
    } else {
        assert(s.subrange(0, i) =~= s);
    }
}

pub open spec fn regs_view(v: Seq<HandlerRegistration>) -> Seq<RegV> {
    Seq::new(v.len(), |i: int| v[i]@)
}

struct PointSlot {
    handler: Box<dyn PointHandler>,
}

struct LayerSlot {
    layer: Box<dyn WrapperLayer>,
}

fn point_slot<F: PointHandler + 'static>(handler: F) -> PointSlot {
    PointSlot { handler: Box::new(handler) }
}

fn layer_slot<L: WrapperLayer + 'static>(layer: L) -> LayerSlot {
    LayerSlot { layer: Box::new(layer) }
}

/// The handlers of a run, each list kept in running order.
pub struct HandlerRegistry {
    point_registrations: Vec<HandlerRegistration>,
    point_handlers: Vec<PointSlot>,
    wrapper_registrations: Vec<HandlerRegistration>,
    wrapper_layers: Vec<LayerSlot>,
    next_id: u64,
}

impl HandlerRegistry {
    /// The point handlers' registrations, in running order.
    pub closed spec fn point_regs(&self) -> Seq<RegV> {
        regs_view(self.point_registrations@)
    }

    /// The wrapper layers' registrations, outermost first.
    pub closed spec fn wrapper_regs(&self) -> Seq<RegV> {
        regs_view(self.wrapper_registrations@)
    }

    /// Whether the point handler at position `i` of the running order may answer `d` when
    /// handed `payload` (see [`PointHandler::answers`]).
    pub closed spec fn point_answers(&self, i: int, payload: PayloadV, d: Option<DecisionV>) -> bool {
        self.point_handlers@[i].handler.answers(payload, d)
    }

    /// Whether the wrapper layer at position `i` of the order may make `outer` around `inner`
    /// (see [`WrapperLayer::wraps`]).
    pub closed spec fn layer_wraps(&self, i: int, inner: WrapperNext, outer: WrapperNext) -> bool {
        self.wrapper_layers@[i].layer.wraps(inner, outer)
    }

    /// How many handlers were registered so far.
    pub closed spec fn registered(&self) -> nat {
        self.next_id as nat
    }

    pub closed spec fn wf(&self) -> bool {
        &&& regs_sorted(self.point_regs())
        &&& regs_sorted(self.wrapper_regs())
        &&& self.point_handlers@.len() == self.point_registrations@.len()
        &&& self.wrapper_layers@.len() == self.wrapper_registrations@.len()
    }

    /// The registrations stay in running order.
    pub proof fn lemma_wf_sorted(&self)
        requires
            self.wf(),
        ensures
            regs_sorted(self.point_regs()),
            regs_sorted(self.wrapper_regs()),
    {
    }

    /// In the running order of the point handlers (and in the order of the wrapper layers,
    /// outermost first), every Extension handler comes before every Definition handler,
    /// whatever their orders and ids, so a Definition handler has the last word.
    pub proof fn lemma_extension_before_definition(&self, i: int, j: int)
        requires
            self.wf(),
        ensures
            0 <= i < self.point_regs().len() && 0 <= j < self.point_regs().len()
                && self.point_regs()[i].scope == HandlerScope::Extension
                && self.point_regs()[j].scope == HandlerScope::Definition ==> i < j,
            0 <= i < self.wrapper_regs().len() && 0 <= j < self.wrapper_regs().len()
                && self.wrapper_regs()[i].scope == HandlerScope::Extension
                && self.wrapper_regs()[j].scope == HandlerScope::Definition ==> i < j,
    {
        let p = self.point_regs();
        if 0 <= i < p.len() && 0 <= j < p.len() && p[i].scope == HandlerScope::Extension && p[j].scope == HandlerScope::Definition {
            lemma_scope_bands_in_order(p[i], p[j]);
            if j < i {
                assert(!reg_lt(p[i], p[j]));
            }
        }
        let w = self.wrapper_regs();
        if 0 <= i < w.len() && 0 <= j < w.len() && w[i].scope == HandlerScope::Extension && w[j].scope == HandlerScope::Definition {
            lemma_scope_bands_in_order(w[i], w[j]);
            if j < i {
                assert(!reg_lt(w[i], w[j]));
            }
        }
    }

    pub fn new() -> (r: HandlerRegistry)
        ensures
            r.wf(),
            r.point_regs() == Seq::<RegV>::empty(),
            r.wrapper_regs() == Seq::<RegV>::empty(),
            r.registered() == 0,
    {
        let r = HandlerRegistry {
            point_registrations: Vec::new(),
            point_handlers: Vec::new(),
            wrapper_registrations: Vec::new(),
            wrapper_layers: Vec::new(),
            next_id: 0,
        };
        assert(regs_view(r.point_registrations@) =~= Seq::empty());
        assert(regs_view(r.wrapper_registrations@) =~= Seq::empty());
        r
    }

    fn next_registration(&mut self, hook: HookName, kind: HandlerKind, order: i32, scope: HandlerScope) -> (r: HandlerRegistration)
        requires
            old(self).next_id < u64::MAX,
        ensures
            final(self).next_id == old(self).next_id + 1,
            final(self).point_registrations == old(self).point_registrations,
            final(self).point_handlers == old(self).point_handlers,
            final(self).wrapper_registrations == old(self).wrapper_registrations,
            final(self).wrapper_layers == old(self).wrapper_layers,
            r@ == (RegV { id: handler_id(final(self).next_id as nat), hook: hook@, kind, order, scope }),
    {
        self.next_id = self.next_id + 1;
        let mut id = owned("handler-");
        id.append(to_decimal(self.next_id).as_str());
        HandlerRegistration { id, hook, kind, order, scope }
    }

    /// Registers a point handler in the extension band.
    pub fn register_point<F: PointHandler + 'static>(&mut self, hook: HookName, order: i32, handler: F) -> (r: AgentCoreResult<HandlerRegistration>)
        requires
            old(self).wf(),
            old(self).registered() < u64::MAX,
        ensures
            final(self).wf(),
            registered_point(*old(self), *final(self), hook@, order, HandlerScope::Extension, r),
    {
        self.register_point_scoped(hook, order, HandlerScope::Extension, handler)
    }

    /// Registers a point handler: refused unless the hook is a point hook; otherwise it gets
    /// the next id and takes its place in running order.
    pub fn register_point_scoped<F: PointHandler + 'static>(&mut self, hook: HookName, order: i32, scope: HandlerScope, handler: F) -> (r: AgentCoreResult<HandlerRegistration>)
        requires
            old(self).wf(),
            old(self).registered() < u64::MAX,
        ensures
            final(self).wf(),
            registered_point(*old(self), *final(self), hook@, order, scope, r),
    {
        if hook.kind() != HookKind::Point {
            let t = not_kind_message(&hook, "point");
            return Err(AgentCoreError::InvalidConfig(t));
        }
        let ghost s0 = self.point_regs();
        let registration = self.next_registration(hook, HandlerKind::Point, order, scope);
        let p = insert_position(&self.point_registrations, &registration);
        let out = registration.dup();
        self.point_registrations.insert(p, registration);
        let slot = point_slot(handler);
        self.point_handlers.insert(p, slot);
        proof {
            assert(regs_view(self.point_registrations@) =~= s0.insert(p as int, out@));
            lemma_insert_keeps_sorted(s0, out@, p as int);
        }
        Ok(out)
    }

    /// Registers a wrapper layer in the extension band.
    pub fn register_wrapper_layer<L: WrapperLayer + 'static>(&mut self, hook: HookName, order: i32, layer: L) -> (r: AgentCoreResult<HandlerRegistration>)
        requires
            old(self).wf(),
            old(self).registered() < u64::MAX,
        ensures
            final(self).wf(),
            registered_wrapper(*old(self), *final(self), hook@, order, HandlerScope::Extension, r),
    {
        self.register_wrapper_layer_scoped(hook, order, HandlerScope::Extension, layer)
    }

    /// Registers a wrapper handler in the extension band, as a layer of its own.
    pub fn register_wrapper<H: WrapperHandler + 'static>(&mut self, hook: HookName, order: i32, handler: H) -> (r: AgentCoreResult<HandlerRegistration>)
        requires
            old(self).wf(),
            old(self).registered() < u64::MAX,
        ensures
            final(self).wf(),
            registered_wrapper(*old(self), *final(self), hook@, order, HandlerScope::Extension, r),
    {
        self.register_wrapper_layer(hook, order, FnWrapperLayer::new(handler))
    }

    /// Registers a wrapper layer: refused unless the hook is a wrapper hook; otherwise it
    /// gets the next id and takes its place in order (earlier ones wrap later ones).
    pub fn register_wrapper_layer_scoped<L: WrapperLayer + 'static>(&mut self, hook: HookName, order: i32, scope: HandlerScope, layer: L) -> (r: AgentCoreResult<HandlerRegistration>)
        requires
            old(self).wf(),
            old(self).registered() < u64::MAX,
        ensures
            final(self).wf(),
            registered_wrapper(*old(self), *final(self), hook@, order, scope, r),
    {
        if hook.kind() != HookKind::Wrapper {
            let t = not_kind_message(&hook, "wrapper");
            return Err(AgentCoreError::InvalidConfig(t));
        }
        let ghost s0 = self.wrapper_regs();
        let registration = self.next_registration(hook, HandlerKind::Wrapper, order, scope);
        let p = insert_position(&self.wrapper_registrations, &registration);
        let out = registration.dup();
        self.wrapper_registrations.insert(p, registration);
        let slot = layer_slot(layer);
        self.wrapper_layers.insert(p, slot);
        proof {
            assert(regs_view(self.wrapper_registrations@) =~= s0.insert(p as int, out@));
            lemma_insert_keeps_sorted(s0, out@, p as int);
        }
        Ok(out)
    }
}

/// What registering a point handler did: refused a hook that is not a point hook, with
/// nothing changed; otherwise added the registration with the next id where the running
/// order puts it, the wrapper layers unchanged.
pub open spec fn registered_point(before: HandlerRegistry, after: HandlerRegistry, hook: HookV, order: i32, scope: HandlerScope, r: AgentCoreResult<HandlerRegistration>) -> bool {
    if hook_kind(hook) != HookKind::Point {
        &&& r matches Err(AgentCoreError::InvalidConfig(t)) && t@ == not_kind_text(hook, "point"@)
        &&& after.point_regs() == before.point_regs()
        &&& after.wrapper_regs() == before.wrapper_regs()
        &&& after.registered() == before.registered()
    } else {
        &&& r matches Ok(reg) && reg@ == (RegV { id: handler_id(before.registered() + 1), hook, kind: HandlerKind::Point, order, scope })
        &&& exists|p: int| insert_at(before.point_regs(), r->Ok_0@, p) && after.point_regs() == before.point_regs().insert(p, r->Ok_0@)
        &&& after.wrapper_regs() == before.wrapper_regs()
        &&& after.registered() == before.registered() + 1
    }
}

/// The same for a wrapper layer.
pub open spec fn registered_wrapper(before: HandlerRegistry, after: HandlerRegistry, hook: HookV, order: i32, scope: HandlerScope, r: AgentCoreResult<HandlerRegistration>) -> bool {
    if hook_kind(hook) != HookKind::Wrapper {
        &&& r matches Err(AgentCoreError::InvalidConfig(t)) && t@ == not_kind_text(hook, "wrapper"@)
        &&& after.point_regs() == before.point_regs()
        &&& after.wrapper_regs() == before.wrapper_regs()
        &&& after.registered() == before.registered()
    } else {
        &&& r matches Ok(reg) && reg@ == (RegV { id: handler_id(before.registered() + 1), hook, kind: HandlerKind::Wrapper, order, scope })
        &&& exists|p: int| insert_at(before.wrapper_regs(), r->Ok_0@, p) && after.wrapper_regs() == before.wrapper_regs().insert(p, r->Ok_0@)
        &&& after.point_regs() == before.point_regs()
        &&& after.registered() == before.registered() + 1
    }
}

/// Position `i` holds the `k`-th registration (from zero) that serves `hook`.
pub open spec fn kth_serving(regs: Seq<RegV>, hook: HookV, k: int, i: int) -> bool {
    0 <= i < regs.len() && regs[i].hook == hook && serving(regs.subrange(0, i), hook) == k
}

/// The count of serving registrations does not go down along the order, and goes up past
/// each serving one.
proof fn lemma_serving_mono(regs: Seq<RegV>, hook: HookV, a: int, b: int)
    requires
        0 <= a <= b <= regs.len(),
    ensures
        serving(regs.subrange(0, a), hook) <= serving(regs.subrange(0, b), hook),
        a < b && regs[a].hook == hook ==> serving(regs.subrange(0, a), hook) < serving(regs.subrange(0, b), hook),
    decreases b - a,
{
    if a < b {
        lemma_serving_mono(regs, hook, a, b - 1);
        assert(regs.subrange(0, b).drop_last() =~= regs.subrange(0, b - 1));
        if a == b - 1 {
            assert(regs.subrange(0, b).last() == regs[a]);
        }
    }
}

/// Only one position holds the `k`-th serving registration.
proof fn lemma_kth_serving_unique(regs: Seq<RegV>, hook: HookV, k: int, i: int, j: int)
    ensures
        kth_serving(regs, hook, k, i) && kth_serving(regs, hook, k, j) ==> i == j,
        forall|k2: int| kth_serving(regs, hook, k, i) && kth_serving(regs, hook, k2, j) && k != k2 ==> i != j,
{
    if kth_serving(regs, hook, k, i) && kth_serving(regs, hook, k, j) && i != j {
        if i < j {
            lemma_serving_mono(regs, hook, i, j);
        } else {
            lemma_serving_mono(regs, hook, j, i);
        }
    }
}

impl HandlerRegistry {
    /// Each answer in `ds` is the one the handler serving the hook in that place of the
    /// running order may give, handed the payload as the answers before it left it.
    pub open spec fn answered_in_order(&self, payload: PayloadV, ds: Seq<Option<DecisionV>>) -> bool {
        forall|k: int, i: int| #![trigger kth_serving(self.point_regs(), payload.hook, k, i)]
            0 <= k < ds.len() && kth_serving(self.point_regs(), payload.hook, k, i) ==> {
                &&& point_run(payload, ds.take(k)) is Running
                &&& self.point_answers(i, point_run(payload, ds.take(k))->Running_0, ds[k])
            }
    }

    proof fn lemma_answered_push(&self, p0: PayloadV, ds: Seq<Option<DecisionV>>, x: Option<DecisionV>, i: int)
        requires
            self.answered_in_order(p0, ds),
            kth_serving(self.point_regs(), p0.hook, ds.len() as int, i),
            point_run(p0, ds) is Running,
            self.point_answers(i, point_run(p0, ds)->Running_0, x),
        ensures
            self.answered_in_order(p0, ds.push(x)),
    {
        let d2 = ds.push(x);
        assert forall|k: int, j: int| #![trigger kth_serving(self.point_regs(), p0.hook, k, j)]
            0 <= k < d2.len() && kth_serving(self.point_regs(), p0.hook, k, j) implies
                point_run(p0, d2.take(k)) is Running
                && self.point_answers(j, point_run(p0, d2.take(k))->Running_0, d2[k]) by {
            lemma_kth_serving_unique(self.point_regs(), p0.hook, k, j, i);
            if k < ds.len() {
                assert(d2.take(k) =~= ds.take(k));
                assert(d2[k] == ds[k]);
            } else {
                assert(d2.take(k) =~= ds);
            }
        }
        assert(self.answered_in_order(p0, d2));
    }

    /// Runs the point handlers of the payload's hook, in running order, each on the payload
    /// as the handlers before it left it: a rewrite replaces the payload (a rewrite to
    /// another hook is refused), an emitted event is collected, a block or a stop ends the
    /// run, and a handler's error ends it with that error. Whatever each handler answers,
    /// the result is the one those answers give (see [`point_run`]).
    pub fn run_point(&self, payload: HookPayload) -> (r: AgentCoreResult<PointHookOutcome>)
        requires
            self.wf(),
        ensures
            hook_kind(payload@.hook) != HookKind::Point ==> (r matches Err(AgentCoreError::InvalidInput(t)) && t@ == not_kind_text(payload@.hook, "point"@)),
            hook_kind(payload@.hook) == HookKind::Point ==> exists|ds: Seq<Option<DecisionV>>|
                #![trigger point_run(payload@, ds)]
                ds.len() <= serving(self.point_regs(), payload@.hook)
                && (ds.len() < serving(self.point_regs(), payload@.hook) ==> !(point_run(payload@, ds) is Running))
                && point_result(point_run(payload@, ds), r)
                && self.answered_in_order(payload@, ds),
    {
        if payload.hook.kind() != HookKind::Point {
            let t = not_kind_message(&payload.hook, "point");
            return Err(AgentCoreError::InvalidInput(t));
        }
        let hook = payload.hook.dup();
        let ghost p0 = payload@;
        let ghost regs = self.point_regs();
        let mut current = payload;
        let mut events: Vec<HookEventRequest> = Vec::new();
        let ghost mut ds: Seq<Option<DecisionV>> = Seq::empty();
        proof {
            assert(event_requests_view(events@) =~= Seq::empty());
            assert(regs.subrange(0, 0) =~= Seq::<RegV>::empty());
        }
        let mut i: usize = 0;
        while i < self.point_registrations.len()
            invariant
                i <= self.point_registrations@.len(),
                self.wf(),
                regs == self.point_regs(),
                hook@ == p0.hook,
                p0 == payload@,
                hook_kind(p0.hook) == HookKind::Point,
                point_run(p0, ds) == PointRunV::Running(current@, event_requests_view(events@)),
                ds.len() == serving(regs.subrange(0, i as int), p0.hook),
                self.answered_in_order(p0, ds),
            decreases self.point_registrations.len() - i,
        {
            proof {
                assert(regs.subrange(0, i + 1).drop_last() =~= regs.subrange(0, i as int));
                assert(regs[i as int] == self.point_registrations@[i as int]@);
                lemma_serving_prefix(regs, p0.hook, i + 1);
            }
            if self.point_registrations[i].hook.same_as(&hook) {
                let answer = self.point_handlers[i].handler.handle(current.dup());
                proof {
                    assert(kth_serving(regs, p0.hook, ds.len() as int, i as int));
                    self.lemma_answered_push(p0, ds, decision_of(answer), i as int);
                }
                match answer {
                    Err(e) => {
                        let r: AgentCoreResult<PointHookOutcome> = Err(e);
                        proof {
                            let d2 = ds.push(None);
                            assert(d2.drop_last() =~= ds);
                            assert(d2.len() <= serving(regs, p0.hook));
                            assert(point_result(point_run(p0, d2), r));
                        }
                        return r;
                    },
                    Ok(decision) => {
                        let ghost dv = decision@;
                        let ghost d2 = ds.push(Some(dv));
                        proof {
                            assert(d2.drop_last() =~= ds);
                            assert(d2.len() <= serving(regs, p0.hook));
                        }
                        match decision {
                            PointHookDecision::Continue => {},
                            PointHookDecision::Rewrite(next) => {
                                if !next.hook.same_as(&hook) {
                                    let r: AgentCoreResult<PointHookOutcome> = Err(AgentCoreError::InvalidInput(owned("point handler cannot rewrite hook name")));
                                    proof {
                                        assert(point_result(point_run(p0, d2), r));
                                    }
                                    return r;
                                }
                                current = next;
                            },
                            PointHookDecision::Emit { event } => {
                                events.push(event);
                                proof {
                                    assert(event_requests_view(events@) =~= point_run(p0, ds)->Running_1.push(dv->Emit_0));
                                }
                            },
                            PointHookDecision::Block { reason } => {
                                let r: AgentCoreResult<PointHookOutcome> = Ok(PointHookOutcome { payload: current, status: PointHookStatus::Blocked { reason }, events });
                                proof {
                                    assert(point_result(point_run(p0, d2), r));
                                }
                                return r;
                            },
                            PointHookDecision::Stop { reason } => {
                                let r: AgentCoreResult<PointHookOutcome> = Ok(PointHookOutcome { payload: current, status: PointHookStatus::Stopped { reason }, events });
                                proof {
                                    assert(point_result(point_run(p0, d2), r));
                                }
                                return r;
                            },
                        }
                        proof {
                            ds = d2;
                        }
                    },
                }
            }
            i += 1;
        }
        proof {
            assert(regs.subrange(0, i as int) =~= regs);
        }
        let r: AgentCoreResult<PointHookOutcome> = Ok(PointHookOutcome { payload: current, status: PointHookStatus::Continued, events });
        proof {
            assert(point_result(point_run(p0, ds), r));
        }
        r
    }

    /// `steps` builds the chain for `hook` around `terminal`, innermost first: it starts at
    /// `terminal`, and each next chain is made by the next layer serving `hook`, taken from
    /// the last in order to the first, so the first is outermost.
    pub open spec fn builds_chain(&self, hook: HookV, terminal: WrapperNext, steps: Seq<WrapperNext>) -> bool {
        let n = serving(self.wrapper_regs(), hook);
        &&& steps.len() == n + 1
        &&& steps[0] == terminal
        &&& forall|k: int, i: int| #![trigger kth_serving(self.wrapper_regs(), hook, k, i)]
            kth_serving(self.wrapper_regs(), hook, k, i) ==> self.layer_wraps(i, steps[n - 1 - k], steps[n - k])
    }

    /// The chain for `hook`: its layers in order, the first outermost, around `terminal`.
    /// With no layer registered for `hook` the chain is `terminal` itself.
    pub fn wrapper_service(&self, hook: HookName, terminal: WrapperNext) -> (r: WrapperNext)
        requires
            self.wf(),
        ensures
            exists|steps: Seq<WrapperNext>| #![trigger self.builds_chain(hook@, terminal, steps)]
                self.builds_chain(hook@, terminal, steps) && r == steps.last(),
            (forall|k: int| 0 <= k < self.wrapper_regs().len() ==> (#[trigger] self.wrapper_regs()[k]).hook != hook@) ==> r == terminal,
    {
        let ghost t = terminal;
        let ghost regs = self.wrapper_regs();
        let ghost n = serving(regs, hook@);
        let mut service = terminal;
        let mut i: usize = self.wrapper_registrations.len();
        let ghost mut steps: Seq<WrapperNext> = seq![t];
        proof {
            assert(regs.subrange(0, i as int) =~= regs);
        }
        while i > 0
            invariant
                i <= self.wrapper_registrations@.len(),
                self.wf(),
                regs == self.wrapper_regs(),
                n == serving(regs, hook@),
                serving(regs.subrange(0, i as int), hook@) <= n,
                steps.len() == n - serving(regs.subrange(0, i as int), hook@) + 1,
                steps[0] == t,
                steps.last() == service,
                forall|k: int, j: int| #![trigger kth_serving(regs, hook@, k, j)]
                    kth_serving(regs, hook@, k, j) && j >= i ==> self.layer_wraps(j, steps[n - 1 - k], steps[n - k]),
                (forall|k: int| i <= k < self.wrapper_regs().len() ==> (#[trigger] self.wrapper_regs()[k]).hook != hook@) ==> service == t,
            decreases i,
        {
            i -= 1;
            proof {
                assert(self.wrapper_regs()[i as int].hook == self.wrapper_registrations@[i as int].hook@);
                assert(regs.subrange(0, i + 1).drop_last() =~= regs.subrange(0, i as int));
                assert(regs.subrange(0, i + 1).last() == regs[i as int]);
            }
            if self.wrapper_registrations[i].hook.same_as(&hook) {
                let ghost before = steps;
                service = self.wrapper_layers[i].layer.layer(service);
                proof {
                    steps = before.push(service);
                    assert(kth_serving(regs, hook@, serving(regs.subrange(0, i as int), hook@) as int, i as int));
                    assert forall|k: int, j: int| #![trigger kth_serving(regs, hook@, k, j)]
                        kth_serving(regs, hook@, k, j) && j >= i implies self.layer_wraps(j, steps[n - 1 - k], steps[n - k]) by {
                        lemma_kth_serving_unique(regs, hook@, k, j, i as int);
                        if j > i {
                            lemma_serving_mono(regs, hook@, i + 1, j);
                            lemma_serving_mono(regs, hook@, j, regs.len() as int);
                            assert(regs.subrange(0, regs.len() as int) =~= regs);
                            assert(steps[n - 1 - k] == before[n - 1 - k]);
                            assert(steps[n - k] == before[n - k]);
                        }
                    }
                }
            }
        }
        proof {
            assert(regs.subrange(0, 0) =~= Seq::<RegV>::empty());
            assert(self.builds_chain(hook@, t, steps));
        }
        service
    }

    /// Runs a request through the layers of its hook around `terminal`; a request whose
    /// hook is not a wrapper hook is refused.
    pub fn run_wrapper<F: WrapperService + 'static>(&self, request: WrapperRequest, terminal: F) -> (r: AgentCoreResult<WrapperResult>)
        requires
            self.wf(),
        ensures
            hook_kind(request@.hook) != HookKind::Wrapper ==> (r matches Err(AgentCoreError::InvalidInput(t)) && t@ == not_kind_text(request@.hook, "wrapper"@)),
            hook_kind(request@.hook) == HookKind::Wrapper ==> exists|t: WrapperNext, steps: Seq<WrapperNext>|
                #![trigger self.builds_chain(request@.hook, t, steps)]
                self.builds_chain(request@.hook, t, steps) && steps.last().responds(request@, r),
    {
        if request.hook.kind() != HookKind::Wrapper {
            let t = not_kind_message(&request.hook, "wrapper");
            return Err(AgentCoreError::InvalidInput(t));
        }
        let ghost req = request@;
        let t = WrapperNext::of(terminal);
        let ghost tg = t;
        let service = self.wrapper_service(request.hook.dup(), t);
        let r = service.run(request);
        proof {
            let steps = choose|steps: Seq<WrapperNext>| #![trigger self.builds_chain(req.hook, tg, steps)]
                self.builds_chain(req.hook, tg, steps) && service == steps.last();
            assert(self.builds_chain(req.hook, tg, steps) && steps.last().responds(req, r));
        }
        r
    }
}

/// Where a registration goes among `regs`: after all that do not run after it.
fn insert_position(regs: &Vec<HandlerRegistration>, x: &HandlerRegistration) -> (p: usize)
    requires
        regs_sorted(regs_view(regs@)),
    ensures
        insert_at(regs_view(regs@), x@, p as int),
{
    let ghost s = regs_view(regs@);
    let xs = scope_rank_of(x.scope);
    let mut p: usize = 0;
    while p < regs.len()
        invariant
            p <= regs.len(),
            s == regs_view(regs@),
            regs_sorted(s),
            xs == scope_rank(x.scope),
            forall|k: int| 0 <= k < p ==> !reg_lt(x@, #[trigger] s[k]),
        decreases regs.len() - p,
    {
        let e = &regs[p];
        let es = scope_rank_of(e.scope);
        let after = xs < es || (xs == es && (x.order < e.order || (x.order == e.order && str_lt(x.id.as_str(), e.id.as_str()))));
        assert(s[p as int] == e@);
        if after {
            proof {
                assert forall|k: int| p <= k < s.len() implies reg_lt(x@, #[trigger] s[k]) by {
                    if k > p {
                        assert(!reg_lt(s[k], s[p as int]));
                        lemma_total_step(x@, s[p as int], s[k]);
                    }
                }
            }
            return p;
        }
        p += 1;
    }
    p
}

/// If `x` runs before `y` and `z` does not run before `y`, then `x` runs before `z`.
pub proof fn lemma_total_step(x: RegV, y: RegV, z: RegV)
    requires
        reg_lt(x, y),
        !reg_lt(z, y),
    ensures
        reg_lt(x, z),
{
    crate::text::lemma_seq_lt_total(z.id, y.id);
    if scope_rank(x.scope) == scope_rank(y.scope) && x.order == y.order && scope_rank(z.scope) == scope_rank(y.scope) && z.order == y.order && z.id != y.id {
        lemma_seq_lt_trans(x.id, y.id, z.id);
    }
}

} // verus!
