//! The providers and models an agent can use: providers by the API they speak, models by id,
//! and how a request finds its provider.

use vstd::prelude::*;
use crate::error::{AgentCoreError, AgentCoreResult};
use crate::llm_model::{api_key, LlmModel, ModelId};
use crate::llm_request::{LlmProvider, LlmRequest};
use crate::text::{is_blank, lemma_seq_lt_irrefl, lemma_seq_lt_total, lemma_seq_lt_trans, owned, seq_lt, str_eq, str_is_blank, str_lt};

verus! {

struct ProviderSlot {
    api: String,
    provider: Box<dyn LlmProvider>,
}

fn provider_slot<P: LlmProvider + 'static>(api: String, provider: P) -> (r: ProviderSlot)
    ensures
        r.api == api,
{
    ProviderSlot { api, provider: Box::new(provider) }
}

spec fn apis_of(v: Seq<ProviderSlot>) -> Seq<Seq<char>> {
    Seq::new(v.len(), |i: int| v[i].api@)
}

pub open spec fn models_keys(v: Seq<LlmModel>) -> Seq<Seq<char>> {
    Seq::new(v.len(), |i: int| v[i].id.0@)
}

/// Where a key goes in a strictly ordered list of keys, and that it is not there.
pub(crate) proof fn lemma_sorted_insert(s: Seq<Seq<char>>, x: Seq<char>, p: int)
    requires
        crate::assoc::set_sorted(s),
        0 <= p <= s.len(),
        forall|k: int| 0 <= k < p ==> seq_lt(#[trigger] s[k], x),
        p < s.len() ==> s[p] != x && !seq_lt(s[p], x),
    ensures
        crate::assoc::set_sorted(s.insert(p, x)),
        !s.contains(x),
{
    if p < s.len() {
        lemma_seq_lt_total(x, s[p]);
    }
    assert forall|k: int| p <= k < s.len() implies seq_lt(x, #[trigger] s[k]) by {
        if k > p {
            lemma_seq_lt_trans(x, s[p], s[k]);
        }
    }
    let t = s.insert(p, x);
    assert forall|i: int, j: int| 0 <= i < j < t.len() implies seq_lt(#[trigger] t[i], #[trigger] t[j]) by {
        if i < p && j > p {
            lemma_seq_lt_trans(s[i], x, s[j - 1]);
        }
    }
    assert(!s.contains(x)) by {
        if s.contains(x) {
            let k = choose|k: int| 0 <= k < s.len() && s[k] == x;
            lemma_seq_lt_irrefl(x);
        }
    }
}

/// What admitting a provider under `api` gives: refused when the name is blank or taken,
/// with its message; otherwise `Ok`.
pub open spec fn api_admission(apis: Seq<Seq<char>>, api: Seq<char>, r: AgentCoreResult<()>) -> bool {
    if is_blank(api) {
        r matches Err(AgentCoreError::InvalidConfig(t)) && t@ == "llm provider api must not be empty"@
    } else if apis.contains(api) {
        r matches Err(AgentCoreError::InvalidConfig(t)) && t@ == "llm provider api `"@ + api + "` already registered"@
    } else {
        r is Ok
    }
}

/// Providers by API and models by id.
pub struct LlmRegistry {
    providers: Vec<ProviderSlot>,
    models: Vec<LlmModel>,
}

impl LlmRegistry {
    /// The APIs with a provider, in order.
    pub closed spec fn apis(&self) -> Seq<Seq<char>> {
        apis_of(self.providers@)
    }

    /// The registered models, in id order.
    pub closed spec fn models_view(&self) -> Seq<LlmModel> {
        self.models@
    }

    #[verifier::type_invariant]
    spec fn inv(&self) -> bool {
        crate::assoc::set_sorted(apis_of(self.providers@)) && crate::assoc::set_sorted(models_keys(self.models@))
    }

    pub fn new() -> (r: LlmRegistry)
        ensures
            r.apis() == Seq::<Seq<char>>::empty(),
            r.models_view() == Seq::<LlmModel>::empty(),
    {
        let r = LlmRegistry { providers: Vec::new(), models: Vec::new() };
        assert(apis_of(r.providers@) =~= Seq::empty());
        assert(models_keys(r.models@) =~= Seq::empty());
        r
    }

    /// Whether a provider may be registered under `api`: refused when the name is blank or
    /// already has a provider, each with its message.
    pub fn admit_api(&self, api: &str) -> (r: AgentCoreResult<()>)
        ensures
            api_admission(self.apis(), api@, r),
    {
        proof {
            use_type_invariant(&*self);
        }
        if str_is_blank(api) {
            return Err(AgentCoreError::InvalidConfig(owned("llm provider api must not be empty")));
        }
        let ghost s0 = self.apis();
        let mut i: usize = 0;
        while i < self.providers.len()
            invariant
                i <= self.providers@.len(),
                s0 == apis_of(self.providers@),
                s0 == self.apis(),
                !is_blank(api@),
                forall|k: int| 0 <= k < i ==> #[trigger] s0[k] != api@,
            decreases self.providers.len() - i,
        {
            if str_eq(self.providers[i].api.as_str(), api) {
                let mut t = owned("llm provider api `");
                t.append(api);
                t.append("` already registered");
                proof {
                    assert(s0[i as int] == api@);
                    assert(s0.contains(api@));
                    assert(t@ =~= "llm provider api `"@ + api@ + "` already registered"@);
                }
                return Err(AgentCoreError::InvalidConfig(t));
            }
            i += 1;
        }
        Ok(())
    }

    /// Registers a provider under the API it names, when [`admit_api`](Self::admit_api)
    /// admits it; it then takes its place in order.
    pub fn register_provider<P: LlmProvider + 'static>(&mut self, provider: P) -> (r: AgentCoreResult<()>)
        ensures
            exists|a: Seq<char>| #![trigger provider.gives_api(a)]
                provider.gives_api(a) && api_admission(old(self).apis(), a, r)
                && (r is Ok ==> exists|p: int| 0 <= p <= old(self).apis().len() && final(self).apis() == old(self).apis().insert(p, a)),
            r is Err ==> final(self).apis() == old(self).apis(),
            final(self).models_view() == old(self).models_view(),
    {
        proof {
            use_type_invariant(&*self);
        }
        let api = owned(provider.api());
        match self.admit_api(api.as_str()) {
            Ok(()) => {},
            Err(e) => {
                return Err(e);
            },
        }
        let ghost s0 = self.apis();
        let mut p: usize = 0;
        while p < self.providers.len() && str_lt(self.providers[p].api.as_str(), api.as_str())
            invariant
                p <= self.providers@.len(),
                s0 == apis_of(self.providers@),
                forall|k: int| 0 <= k < p ==> seq_lt(#[trigger] s0[k], api@),
            decreases self.providers.len() - p,
        {
            p += 1;
        }
        proof {
            if p < s0.len() && s0[p as int] == api@ {
                assert(s0.contains(api@));
            }
            lemma_sorted_insert(s0, api@, p as int);
        }
        let ghost a = api@;
        let slot = provider_slot(api, provider);
        let mut providers: Vec<ProviderSlot> = Vec::new();
        std::mem::swap(&mut providers, &mut self.providers);
        providers.insert(p, slot);
        proof {
            assert(apis_of(providers@) =~= s0.insert(p as int, a));
        }
        self.providers = providers;
        Ok(())
    }

    /// Registers a model: refused when its id is blank or taken.
    pub fn register_model(&mut self, model: LlmModel) -> (r: AgentCoreResult<()>)
        ensures
            is_blank(model.id.0@) ==> (r matches Err(AgentCoreError::InvalidConfig(t)) && t@ == "model id must not be empty"@),
            !is_blank(model.id.0@) && models_keys(old(self).models_view()).contains(model.id.0@) ==> (r matches Err(AgentCoreError::InvalidConfig(t))
                && t@ == "model `"@ + model.id.0@ + "` already registered"@),
            r is Err ==> final(self).models_view() == old(self).models_view(),
            r is Ok <==> (!is_blank(model.id.0@) && !models_keys(old(self).models_view()).contains(model.id.0@)),
            r is Ok ==> exists|p: int| 0 <= p <= old(self).models_view().len()
                && final(self).models_view() == old(self).models_view().insert(p, model),
            final(self).apis() == old(self).apis(),
    {
        proof {
            use_type_invariant(&*self);
        }
        if str_is_blank(model.id.as_str()) {
            return Err(AgentCoreError::InvalidConfig(owned("model id must not be empty")));
        }
        let ghost s0 = models_keys(self.models@);
        let mut p: usize = 0;
        while p < self.models.len() && str_lt(self.models[p].id.as_str(), model.id.as_str())
            invariant
                p <= self.models@.len(),
                s0 == models_keys(self.models@),
                forall|k: int| 0 <= k < p ==> seq_lt(#[trigger] s0[k], model.id.0@),
            decreases self.models.len() - p,
        {
            p += 1;
        }
        if p < self.models.len() && str_eq(self.models[p].id.as_str(), model.id.as_str()) {
            assert(s0[p as int] == model.id.0@);
            let mut t = owned("model `");
            t.append(model.id.as_str());
            t.append("` already registered");
            return Err(AgentCoreError::InvalidConfig(t));
        }
        proof {
            lemma_sorted_insert(s0, model.id.0@, p as int);
        }
        let ghost m = model;
        let ghost old_models = self.models@;
        let mut models: Vec<LlmModel> = Vec::new();
        std::mem::swap(&mut models, &mut self.models);
        models.insert(p, model);
        proof {
            assert(models_keys(models@) =~= s0.insert(p as int, m.id.0@));
        }
        self.models = models;
        assert(self.models_view() == old(self).models_view().insert(p as int, m));
        Ok(())
    }

    /// The model with an id.
    pub fn model(&self, model: &ModelId) -> (r: Option<&LlmModel>)
        ensures
            r is Some <==> models_keys(self.models_view()).contains(model.0@),
            r matches Some(m) ==> m.id.0@ == model.0@ && self.models_view().contains(*m),
    {
        let mut i: usize = 0;
        while i < self.models.len()
            invariant
                i <= self.models@.len(),
                forall|k: int| 0 <= k < i ==> models_keys(self.models@)[k] != model.0@,
            decreases self.models.len() - i,
        {
            if str_eq(self.models[i].id.as_str(), model.as_str()) {
                assert(models_keys(self.models@)[i as int] == model.0@);
                assert(self.models@[i as int] == self.models@[i as int]);
                return Some(&self.models[i]);
            }
            i += 1;
        }
        None
    }

    /// The provider for an API; refused when there is none.
    pub fn provider_by_api(&self, api: &str) -> (r: AgentCoreResult<&Box<dyn LlmProvider>>)
        ensures
            self.apis().contains(api@) <==> r is Ok,
            r matches Err(e) ==> e matches AgentCoreError::NotFound(t) && t@ == "llm provider api `"@ + api@ + "` not found"@,
    {
        let mut i: usize = 0;
        while i < self.providers.len()
            invariant
                i <= self.providers@.len(),
                forall|k: int| 0 <= k < i ==> self.apis()[k] != api@,
            decreases self.providers.len() - i,
        {
            if str_eq(self.providers[i].api.as_str(), api) {
                assert(self.apis()[i as int] == api@);
                return Ok(&self.providers[i].provider);
            }
            i += 1;
        }
        let mut t = owned("llm provider api `");
        t.append(api);
        t.append("` not found");
        Err(AgentCoreError::NotFound(t))
    }

    /// The provider for a model's API; refused when the model or the provider is missing.
    pub fn provider_for_model(&self, model: &ModelId) -> (r: AgentCoreResult<&Box<dyn LlmProvider>>)
        ensures
            !models_keys(self.models_view()).contains(model.0@) ==> (r matches Err(AgentCoreError::NotFound(t))
                && t@ == "model `"@ + model.0@ + "` not found"@),
            r is Ok ==> exists|m: LlmModel| self.models_view().contains(m) && m.id.0@ == model.0@ && self.apis().contains(api_key(m.api)),
    {
        let m = match self.model(model) {
            Some(m) => m,
            None => {
                let mut t = owned("model `");
                t.append(model.as_str());
                t.append("` not found");
                return Err(AgentCoreError::NotFound(t));
            },
        };
        self.provider_by_api(m.api.as_key())
    }

    /// The provider for a request: by its API when it names one, else by its model.
    pub fn provider_for_request(&self, request: &LlmRequest) -> (r: AgentCoreResult<&Box<dyn LlmProvider>>)
        ensures
            request.api matches Some(a) ==> (self.apis().contains(a@) <==> r is Ok),
            request.api is None && !models_keys(self.models_view()).contains(request.model.0@) ==> r is Err,
    {
        match &request.api {
            Some(api) => self.provider_by_api(api.as_str()),
            None => self.provider_for_model(&request.model),
        }
    }
}

} // verus!
