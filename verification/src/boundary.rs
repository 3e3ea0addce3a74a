//! The mobile-agent boundary: how stable each piece of context is and the order that puts
//! it in, an id for a stable prompt prefix, which API key a prefix is routed to, and the
//! prompts a mobile run is configured with.

use vstd::prelude::*;
use vstd::string::StrSliceExecFns;
use crate::assoc::{assoc_find, assoc_get, assoc_insert, assoc_set, assoc_sorted, pairs_view};
use crate::definition::{definition_error, AgentDefinition, AgentDefinitionBuilder, ToolVisibility};
use crate::error::{AgentCoreError, AgentCoreResult};
use crate::json::{fields_get, fields_insert, fields_lookup, fields_set, keys_sorted, object_view, Json, JsonV};
use crate::llm_request::LlmRequest;
use crate::message::{MessageV, RunMessage, messages_view};
use crate::text::{decimal, owned, replace_seq, replace_str, str_eq, to_decimal};

verus! {

/// The metadata key a message's stability is kept under.
pub const STABILITY_KEY: &'static str = "context.stability";

/// How stable a piece of context is, most stable first.
#[derive(Debug, Clone, Copy, PartialEq, Eq, Structural)]
pub enum ContextStability {
    StablePrefix,
    TaskPackage,
    DependencyResult,
    VolatileObservation,
}

pub open spec fn stability_name(s: ContextStability) -> Seq<char> {
    match s {
        ContextStability::StablePrefix => "stable_prefix"@,
        ContextStability::TaskPackage => "task_package"@,
        ContextStability::DependencyResult => "dependency_result"@,
        ContextStability::VolatileObservation => "volatile_observation"@,
    }
}

pub open spec fn stability_rank(s: ContextStability) -> int {
    match s {
        ContextStability::StablePrefix => 0,
        ContextStability::TaskPackage => 1,
        ContextStability::DependencyResult => 2,
        ContextStability::VolatileObservation => 3,
    }
}

/// The stability a message is marked with; unmarked messages are volatile observations.
pub open spec fn stability_of(m: MessageV) -> ContextStability {
    match fields_get(m.metadata, STABILITY_KEY@) {
        Some(JsonV::Str(s)) => if s == "stable_prefix"@ {
            ContextStability::StablePrefix
        } else if s == "task_package"@ {
            ContextStability::TaskPackage
        } else if s == "dependency_result"@ {
            ContextStability::DependencyResult
        } else {
            ContextStability::VolatileObservation
        },
        _ => ContextStability::VolatileObservation,
    }
}

impl ContextStability {
    pub fn as_str(self) -> (r: &'static str)
        ensures
            r@ == stability_name(self),
    {
        match self {
            ContextStability::StablePrefix => "stable_prefix",
            ContextStability::TaskPackage => "task_package",
            ContextStability::DependencyResult => "dependency_result",
            ContextStability::VolatileObservation => "volatile_observation",
        }
    }

    pub fn rank(self) -> (r: u8)
        ensures
            r == stability_rank(self),
    {
        match self {
            ContextStability::StablePrefix => 0,
            ContextStability::TaskPackage => 1,
            ContextStability::DependencyResult => 2,
            ContextStability::VolatileObservation => 3,
        }
    }

    pub fn from_message(message: &RunMessage) -> (r: ContextStability)
        ensures
            r == stability_of(message.view()),
    {
        proof {
            reveal_strlit("stable_prefix");
            reveal_strlit("task_package");
            reveal_strlit("dependency_result");
        }
        match fields_lookup(&message.metadata, STABILITY_KEY) {
            Some(Json::Str(s)) => {
                if str_eq(s.as_str(), "stable_prefix") {
                    ContextStability::StablePrefix
                } else if str_eq(s.as_str(), "task_package") {
                    ContextStability::TaskPackage
                } else if str_eq(s.as_str(), "dependency_result") {
                    ContextStability::DependencyResult
                } else {
                    ContextStability::VolatileObservation
                }
            },
            _ => ContextStability::VolatileObservation,
        }
    }
}

/// Marks a message with a stability.
pub fn mark_stability(message: RunMessage, stability: ContextStability) -> (r: RunMessage)
    requires
        message.wf(),
    ensures
        r.wf(),
        r == (RunMessage { metadata: r.metadata, ..message }),
        object_view(r.metadata@) == fields_insert(object_view(message.metadata@), STABILITY_KEY@, JsonV::Str(stability_name(stability))),
{
    message.with_metadata(STABILITY_KEY, Json::str_of(stability.as_str()))
}

/// The messages of a given stability rank, in order.
pub open spec fn with_rank(s: Seq<RunMessage>, rank: int) -> Seq<RunMessage>
    decreases s.len(),
{
    if s.len() == 0 {
        Seq::empty()
    } else {
        let rest = with_rank(s.drop_last(), rank);
        if stability_rank(stability_of(s.last().view())) == rank {
            rest.push(s.last())
        } else {
            rest
        }
    }
}

/// Messages from most to least stable, keeping the order among equally stable ones.
pub open spec fn stability_order(s: Seq<RunMessage>) -> Seq<RunMessage> {
    with_rank(s, 0) + with_rank(s, 1) + with_rank(s, 2) + with_rank(s, 3)
}

/// Orders messages from most to least stable, keeping their order within a stability.
pub fn order_by_stability(messages: Vec<RunMessage>) -> (r: Vec<RunMessage>)
    ensures
        messages_view(r@) == messages_view(stability_order(messages@)),
{
    let mut out: Vec<RunMessage> = Vec::new();
    let mut rank: u8 = 0;
    proof {
        assert(messages_view(out@) =~= Seq::empty());
    }
    while rank < 4
        invariant
            rank <= 4,
            messages_view(out@) == messages_view(
                if rank == 0 { Seq::empty() } else if rank == 1 { with_rank(messages@, 0) } else if rank == 2 {
                    with_rank(messages@, 0) + with_rank(messages@, 1)
                } else if rank == 3 {
                    with_rank(messages@, 0) + with_rank(messages@, 1) + with_rank(messages@, 2)
                } else {
                    stability_order(messages@)
                },
            ),
        decreases 4 - rank,
    {
        let ghost o0 = out@;
        let mut i: usize = 0;
        proof {
            assert(messages@.subrange(0, 0) =~= Seq::<RunMessage>::empty());
            assert(messages_view(out@) =~= messages_view(o0) + messages_view(with_rank(messages@.subrange(0, 0), rank as int)));
        }
        while i < messages.len()
            invariant
                i <= messages@.len(),
                rank < 4,
                messages_view(out@) == messages_view(o0) + messages_view(with_rank(messages@.subrange(0, i as int), rank as int)),
            decreases messages.len() - i,
        {
            proof {
                assert(messages@.subrange(0, i + 1).drop_last() =~= messages@.subrange(0, i as int));
            }
            if ContextStability::from_message(&messages[i]).rank() == rank {
                let ghost p = messages_view(out@);
                out.push(messages[i].dup());
                proof {
                    assert(messages_view(out@) =~= p.push(messages@[i as int].view()));
                    assert(messages_view(with_rank(messages@.subrange(0, i + 1), rank as int)) =~= messages_view(with_rank(messages@.subrange(0, i as int), rank as int)).push(messages@[i as int].view()));
                }
            }
            i += 1;
        }
        proof {
            assert(messages@.subrange(0, i as int) =~= messages@);
            let a = with_rank(messages@, 0);
            let b = with_rank(messages@, 1);
            let c = with_rank(messages@, 2);
            let d = with_rank(messages@, 3);
            assert(messages_view(a + b) =~= messages_view(a) + messages_view(b));
            assert(messages_view(a + b + c) =~= messages_view(a + b) + messages_view(c));
            assert(messages_view(a + b + c + d) =~= messages_view(a + b + c) + messages_view(d));
            assert(messages_view(Seq::<RunMessage>::empty()) + messages_view(a) =~= messages_view(a));
        }
        rank += 1;
    }
    out
}

/// The stability names of messages, in order.
pub fn stability_order_labels(messages: &Vec<RunMessage>) -> (r: Vec<&'static str>)
    ensures
        r@.len() == messages@.len(),
        forall|i: int| 0 <= i < r@.len() ==> (#[trigger] r@[i])@ == stability_name(stability_of(messages@[i].view())),
{
    let mut out: Vec<&'static str> = Vec::new();
    let mut i: usize = 0;
    while i < messages.len()
        invariant
            i <= messages@.len(),
            out@.len() == i,
            forall|k: int| 0 <= k < i ==> (#[trigger] out@[k])@ == stability_name(stability_of(messages@[k].view())),
        decreases messages.len() - i,
    {
        out.push(ContextStability::from_message(&messages[i]).as_str());
        i += 1;
    }
    out
}

/// One step of the 64-bit FNV-1a hash.
pub open spec fn fnv_step(h: u64, b: u8) -> u64 {
    (h ^ (b as u64)).wrapping_mul(0x100000001b3u64)
}

pub open spec fn fnv(h: u64, bytes: Seq<u8>) -> u64
    decreases bytes.len(),
{
    if bytes.len() == 0 {
        h
    } else {
        fnv_step(fnv(h, bytes.drop_last()), bytes.last())
    }
}

/// The bytes hashed for a prefix: the prompt's UTF-8 bytes and a zero, then each direct
/// tool name's bytes and a zero.
pub open spec fn prefix_bytes(prompt: Seq<u8>, names: Seq<Seq<u8>>) -> Seq<u8>
    decreases names.len(),
{
    if names.len() == 0 {
        prompt.push(0u8)
    } else {
        prefix_bytes(prompt, names.drop_last()) + names.last().push(0u8)
    }
}

pub open spec fn hex_digit(d: u64) -> char {
    if d < 10 {
        (('0' as u64) + d) as char
    } else {
        (('a' as u64) + d - 10) as char
    }
}

/// The 16 lower-case hex digits of a 64-bit value.
pub open spec fn hex16(h: u64) -> Seq<char> {
    Seq::new(16, |i: int| hex_digit(((h >> ((60 - 4 * i) as u64)) & 0xfu64) as u64))
}

fn hex_char(d: u64) -> (r: char)
    requires
        d < 16,
    ensures
        r == hex_digit(d),
{
    match d {
        0 => '0',
        1 => '1',
        2 => '2',
        3 => '3',
        4 => '4',
        5 => '5',
        6 => '6',
        7 => '7',
        8 => '8',
        9 => '9',
        10 => 'a',
        11 => 'b',
        12 => 'c',
        13 => 'd',
        14 => 'e',
        _ => 'f',
    }
}

fn hash_bytes(h: u64, bytes: &Vec<u8>) -> (r: u64)
    ensures
        r == fnv(h, bytes@),
{
    let mut hash = h;
    let mut i: usize = 0;
    while i < bytes.len()
        invariant
            i <= bytes@.len(),
            hash == fnv(h, bytes@.subrange(0, i as int)),
        decreases bytes.len() - i,
    {
        proof {
            assert(bytes@.subrange(0, i + 1).drop_last() =~= bytes@.subrange(0, i as int));
        }
        hash = hash ^ (bytes[i] as u64);
        hash = hash.wrapping_mul(0x100000001b3);
        i += 1;
    }
    proof {
        assert(bytes@.subrange(0, i as int) =~= bytes@);
    }
    hash
}

proof fn lemma_fnv_append(h: u64, a: Seq<u8>, b: Seq<u8>)
    ensures
        fnv(h, a + b) == fnv(fnv(h, a), b),
    decreases b.len(),
{
    if b.len() > 0 {
        lemma_fnv_append(h, a, b.drop_last());
        assert((a + b).drop_last() =~= a + b.drop_last());
    } else {
        assert(a + b =~= a);
    }
}

fn hash_zero(h: u64) -> (r: u64)
    ensures
        r == fnv(h, seq![0u8]),
{
    let zero: u8 = 0;
    proof {
        assert(seq![0u8].drop_last() =~= Seq::<u8>::empty());
        assert(fnv(h, Seq::<u8>::empty()) == h);
        assert(fnv(h, seq![0u8]) == fnv_step(h, zero));
    }
    (h ^ (zero as u64)).wrapping_mul(0x100000001b3)
}

fn hex16_text(hash: u64) -> (r: String)
    ensures
        r@ == hex16(hash),
{
    let mut out = String::new();
    let mut k: u64 = 0;
    while k < 16
        invariant
            k <= 16,
            out@ == hex16(hash).subrange(0, k as int),
        decreases 16 - k,
    {
        let shift: u64 = 60 - 4 * k;
        let d = (hash >> shift) & 0xf;
        assert(d < 16) by (bit_vector)
            requires
                d == (hash >> shift) & 0xf;
        crate::text::push_char(&mut out, hex_char(d));
        proof {
            assert(out@ =~= hex16(hash).subrange(0, k + 1));
        }
        k += 1;
    }
    proof {
        assert(hex16(hash).subrange(0, 16) =~= hex16(hash));
    }
    out
}

/// The UTF-8 bytes of each name.
pub open spec fn names_bytes(names: Seq<String>) -> Seq<Seq<u8>> {
    Seq::new(names.len(), |i: int| vstd::utf8::encode_utf8(names[i]@))
}

/// An id for a stable prompt prefix: `stable-prefix-` and the 64-bit FNV-1a hash, in 16 hex
/// digits, of the prompt and the direct tool names, each followed by a zero byte.
pub fn stable_prefix_id(system_prompt: &str, direct_tool_names: &Vec<String>) -> (r: String)
    ensures
        r@ == "stable-prefix-"@ + hex16(fnv(0xcbf29ce484222325u64,
            prefix_bytes(vstd::utf8::encode_utf8(system_prompt@), names_bytes(direct_tool_names@)))),
{
    let ghost names = names_bytes(direct_tool_names@);
    let ghost pb = vstd::utf8::encode_utf8(system_prompt@);
    let prompt_bytes = system_prompt.as_bytes_vec();
    let mut hash = hash_bytes(0xcbf29ce484222325, &prompt_bytes);
    hash = hash_zero(hash);
    proof {
        lemma_fnv_append(0xcbf29ce484222325u64, pb, seq![0u8]);
        assert(pb + seq![0u8] =~= pb.push(0u8));
        assert(names.subrange(0, 0) =~= Seq::<Seq<u8>>::empty());
    }
    let mut i: usize = 0;
    while i < direct_tool_names.len()
        invariant
            i <= direct_tool_names@.len(),
            names == names_bytes(direct_tool_names@),
            hash == fnv(0xcbf29ce484222325u64, prefix_bytes(pb, names.subrange(0, i as int))),
        decreases direct_tool_names.len() - i,
    {
        let bytes = direct_tool_names[i].as_str().as_bytes_vec();
        let ghost before = prefix_bytes(pb, names.subrange(0, i as int));
        hash = hash_bytes(hash, &bytes);
        hash = hash_zero(hash);
        proof {
            assert(names.subrange(0, i + 1).drop_last() =~= names.subrange(0, i as int));
            assert(names[i as int] == bytes@);
            lemma_fnv_append(0xcbf29ce484222325u64, before, bytes@);
            lemma_fnv_append(0xcbf29ce484222325u64, before + bytes@, seq![0u8]);
            assert(before + bytes@.push(0u8) =~= (before + bytes@) + seq![0u8]);
        }
        i += 1;
    }
    proof {
        assert(names.subrange(0, i as int) =~= names);
    }
    let mut out = owned("stable-prefix-");
    out.append(hex16_text(hash).as_str());
    out
}

/// A secret source, by environment-variable name. Its answers are the implementer's.
pub trait SecretResolver {
    fn resolve(&self, env_var: &str) -> Option<String>;
}

/// Secrets given up front, by name.
#[derive(Debug)]
pub struct StaticSecretResolver {
    secrets: Vec<(String, String)>,
}

impl StaticSecretResolver {
    pub closed spec fn view(&self) -> Seq<(Seq<char>, Seq<char>)> {
        pairs_view(self.secrets@)
    }

    #[verifier::type_invariant]
    spec fn inv(&self) -> bool {
        assoc_sorted(pairs_view(self.secrets@))
    }

    /// The secrets, by name; a later secret of the same name replaces an earlier one.
    pub fn new(secrets: Vec<(String, String)>) -> (r: StaticSecretResolver)
        ensures
            r@ == secrets_map(pairs_view(secrets@)),
    {
        let mut map: Vec<(String, String)> = Vec::new();
        let mut i: usize = 0;
        proof {
            assert(pairs_view(map@) =~= Seq::empty());
            assert(pairs_view(secrets@).subrange(0, 0) =~= Seq::<(Seq<char>, Seq<char>)>::empty());
        }
        while i < secrets.len()
            invariant
                i <= secrets@.len(),
                assoc_sorted(pairs_view(map@)),
                pairs_view(map@) == secrets_map(pairs_view(secrets@).subrange(0, i as int)),
            decreases secrets.len() - i,
        {
            proof {
                assert(pairs_view(secrets@).subrange(0, i + 1).drop_last() =~= pairs_view(secrets@).subrange(0, i as int));
            }
            assoc_set(&mut map, secrets[i].0.as_str(), owned(secrets[i].1.as_str()));
            i += 1;
        }
        proof {
            assert(pairs_view(secrets@).subrange(0, i as int) =~= pairs_view(secrets@));
        }
        StaticSecretResolver { secrets: map }
    }
}

/// Pairs gathered into a map ordered by name, later pairs replacing earlier ones.
pub open spec fn secrets_map(pairs: Seq<(Seq<char>, Seq<char>)>) -> Seq<(Seq<char>, Seq<char>)>
    decreases pairs.len(),
{
    if pairs.len() == 0 {
        Seq::empty()
    } else {
        assoc_insert(secrets_map(pairs.drop_last()), pairs.last().0, pairs.last().1)
    }
}

/// The value of the last pair named `name`, if any pair is.
pub open spec fn last_value(pairs: Seq<(Seq<char>, Seq<char>)>, name: Seq<char>) -> Option<Seq<char>>
    decreases pairs.len(),
{
    if pairs.len() == 0 {
        None
    } else if pairs.last().0 == name {
        Some(pairs.last().1)
    } else {
        last_value(pairs.drop_last(), name)
    }
}

/// The last pair given for a name wins: a resolver built from `pairs` holds, under each
/// name, the value of the last pair with that name, verbatim, and nothing under a name no
/// pair has.
pub proof fn lemma_last_pair_wins(pairs: Seq<(Seq<char>, Seq<char>)>, name: Seq<char>)
    ensures
        assoc_get(secrets_map(pairs), name) == last_value(pairs, name),
    decreases pairs.len(),
{
    if pairs.len() > 0 {
        lemma_last_pair_wins(pairs.drop_last(), name);
        crate::assoc::lemma_assoc_get_insert(secrets_map(pairs.drop_last()), pairs.last().0, pairs.last().1, name);
    }
}

impl SecretResolver for StaticSecretResolver {
    fn resolve(&self, env_var: &str) -> (r: Option<String>)
        ensures
            match assoc_get(self@, env_var@) {
                Some(v) => r matches Some(s) && s@ == v,
                None => r is None,
            },
    {
        proof {
            use_type_invariant(self);
        }
        match assoc_find(&self.secrets, env_var) {
            Some(v) => Some(owned(v.as_str())),
            None => None,
        }
    }
}

/// An account and the environment variable that holds its key.
#[derive(Debug, Clone, PartialEq, Eq)]
pub struct ApiKeyRoute {
    pub account_label: String,
    pub env_var: String,
}

/// Routes the stable prefix to one account and every other prefix to a general pool.
#[derive(Debug, Clone, PartialEq, Eq)]
pub struct KeyRoutePlan {
    pub stable_prefix_id: String,
    pub stable_route: ApiKeyRoute,
    pub general_route: ApiKeyRoute,
}

/// A request with a key attached, and the route it took.
#[derive(Debug)]
pub struct RoutedRequest {
    pub request: LlmRequest,
    pub account_label: String,
    pub env_var: String,
}

impl KeyRoutePlan {
    pub fn new(stable_prefix_id: &str) -> (r: KeyRoutePlan)
        ensures
            r.stable_prefix_id@ == stable_prefix_id@,
            r.stable_route.account_label@ == "stable-prefix-account"@ && r.stable_route.env_var@ == "MOBILERUN_STABLE_PREFIX_API_KEY"@,
            r.general_route.account_label@ == "general-pool-account"@ && r.general_route.env_var@ == "MOBILERUN_GENERAL_POOL_API_KEY"@,
    {
        KeyRoutePlan {
            stable_prefix_id: owned(stable_prefix_id),
            stable_route: ApiKeyRoute { account_label: owned("stable-prefix-account"), env_var: owned("MOBILERUN_STABLE_PREFIX_API_KEY") },
            general_route: ApiKeyRoute { account_label: owned("general-pool-account"), env_var: owned("MOBILERUN_GENERAL_POOL_API_KEY") },
        }
    }

    /// The stable route for the stable prefix, the general one for any other.
    pub fn route_for_prefix(&self, prefix_id: &str) -> (r: &ApiKeyRoute)
        ensures
            prefix_id@ == self.stable_prefix_id@ ==> r == &self.stable_route,
            prefix_id@ != self.stable_prefix_id@ ==> r == &self.general_route,
    {
        if str_eq(prefix_id, self.stable_prefix_id.as_str()) {
            &self.stable_route
        } else {
            &self.general_route
        }
    }

    /// Attaches the key of the prefix's route: a bearer authorization header, and the
    /// account, the variable and the prefix in the metadata (never the key). Refused when
    /// the resolver has no key for the route's variable.
    pub fn apply<R: SecretResolver>(&self, request: LlmRequest, prefix_id: &str, resolver: &R) -> (r: AgentCoreResult<RoutedRequest>)
        requires
            keys_sorted(object_view(request.metadata@)),
            assoc_sorted(pairs_view(request.headers@)),
        ensures
            ({
                let route = if prefix_id@ == self.stable_prefix_id@ { self.stable_route } else { self.general_route };
                &&& r matches Err(e) ==> e matches AgentCoreError::InvalidConfig(t) && t@ == "missing API key environment variable: "@ + route.env_var@
                &&& r matches Ok(rr) ==> {
                    &&& rr.account_label@ == route.account_label@ && rr.env_var@ == route.env_var@
                    &&& rr.request.model == request.model && rr.request.messages == request.messages && rr.request.input == request.input
                    &&& object_view(rr.request.metadata@) == fields_insert(fields_insert(fields_insert(object_view(request.metadata@),
                        "key_route.account"@, JsonV::Str(route.account_label@)), "key_route.env_var"@, JsonV::Str(route.env_var@)),
                        "key_route.prefix_id"@, JsonV::Str(prefix_id@))
                    &&& exists|key: Seq<char>| pairs_view(rr.request.headers@) == assoc_insert(pairs_view(request.headers@), "Authorization"@, "Bearer "@ + key)
                }
            }),
    {
        let route = self.route_for_prefix(prefix_id);
        let api_key = match resolver.resolve(route.env_var.as_str()) {
            Some(k) => k,
            None => {
                let mut t = owned("missing API key environment variable: ");
                t.append(route.env_var.as_str());
                return Err(AgentCoreError::InvalidConfig(t));
            },
        };
        let mut request = request;
        let mut bearer = owned("Bearer ");
        bearer.append(api_key.as_str());
        let ghost key = api_key@;
        let ghost h0 = pairs_view(request.headers@);
        assoc_set(&mut request.headers, "Authorization", bearer);
        proof {
            assert(pairs_view(request.headers@) == assoc_insert(h0, "Authorization"@, "Bearer "@ + key));
        }
        fields_set(&mut request.metadata, "key_route.account", Json::str_of(route.account_label.as_str()));
        fields_set(&mut request.metadata, "key_route.env_var", Json::str_of(route.env_var.as_str()));
        fields_set(&mut request.metadata, "key_route.prefix_id", Json::str_of(prefix_id));
        Ok(RoutedRequest { request, account_label: owned(route.account_label.as_str()), env_var: owned(route.env_var.as_str()) })
    }
}

} // verus!
