//! The generation runtime: it resolves the model route, checks the vault
//! restrictions, makes the prompt for each candidate model and submits to the
//! provider, falling back to the next candidate when a submission fails.

use vstd::prelude::*;
use crate::agents::{json_error, json_error_message};
use crate::dsl::{opt_view, string_views};
use crate::generate::{
    copy_opt, entries_view, kind_name, models_view, opt_str_view, route_spec, GenerationKind, ModelRegistry, ModelRoute,
    ModelView, ProviderModel, RouteView, RoutingConfig,
};
use crate::job::{
    copy_pairs, opt_context_view, pairs_view, params_view, GenerationArtifact, GenerationJob, GenerationOptions,
    GenerationRequest, GenerationStatus, ParamsValue, ParamsView, PromptContextView, ProfessionalPrompt,
};
use crate::prompt::{rule_based_prompt, vaults_of, CompositePromptMaker, PromptMaker, PromptMakerContext};
use crate::refs::{AetherError, Ref};
use crate::text::{first_index, lemma_first_index, lemma_first_index_none, owned, push_str, str_eq};
use crate::vault::{AssetRefView, PromptContext, VaultAssetRef, VaultContextView};

verus! {

// ---------------------------------------------------------------------------
// Providers
// ---------------------------------------------------------------------------

/// What a provider answers to a submission.
#[derive(Debug, Clone)]
pub struct ProviderSubmitResult {
    pub provider_job_id: String,
    pub status: GenerationStatus,
}

/// A generation backend. Each backend says which answers it may give to a
/// submission, a status request, a download and a cancellation (`r` being one of
/// them); the runtime's contract is stated over these.
pub trait GenerationProvider {
    /// `r` is an answer the provider may give to submitting `request`.
    spec fn submit_answers(&self, request: GenerationRequest, r: Result<ProviderSubmitResult, AetherError>) -> bool;

    /// `r` is an answer the provider may give when asked the status of `job`.
    spec fn status_answers(&self, job: GenerationJob, r: Result<GenerationStatus, AetherError>) -> bool;

    /// `r` is an answer the provider may give when asked the files of `job`.
    spec fn download_answers(&self, job: GenerationJob, r: Result<Vec<GenerationArtifact>, AetherError>) -> bool;

    /// `r` is an answer the provider may give when asked to cancel `job`.
    spec fn cancel_answers(&self, job: GenerationJob, r: Result<(), AetherError>) -> bool;

    /// The provider's name.
    fn provider_name(&self) -> &'static str;

    /// The provider serves `model`.
    fn supports(&self, model: &ProviderModel) -> bool;

    /// Submits a request.
    fn submit(&self, request: &GenerationRequest) -> (r: Result<ProviderSubmitResult, AetherError>)
        ensures
            self.submit_answers(*request, r);

    /// The current status of a job.
    fn status(&self, job: &GenerationJob) -> (r: Result<GenerationStatus, AetherError>)
        ensures
            self.status_answers(*job, r);

    /// Fetches the files a finished job produced.
    fn download(&self, job: &GenerationJob) -> (r: Result<Vec<GenerationArtifact>, AetherError>)
        ensures
            self.download_answers(*job, r);

    /// Cancels a job.
    fn cancel(&self, job: &GenerationJob) -> (r: Result<(), AetherError>)
        ensures
            self.cancel_answers(*job, r);
}

/// A source of the current time, in milliseconds since the Unix epoch.
pub trait Clock {
    /// The current time.
    fn now_ms(&self) -> u64;
}

/// The backend serving a model.
#[derive(Debug, Clone, Copy, PartialEq, Eq, Structural)]
pub enum Backend {
    Mock,
    Bridge,
}

/// A provider the API bridge serves.
pub open spec fn bridge_provider(p: Seq<char>) -> bool {
    p == "openai"@ || p == "google"@ || p == "bytedance"@ || p == "kuaishou"@
}

pub open spec fn msg_no_bridge() -> Seq<char> {
    "Real provider requested but API bridge is not configured (build services/aether-api-bridge)"@
}

pub open spec fn msg_no_backend(provider: Seq<char>) -> Seq<char> {
    "No provider backend for model provider '"@ + provider + "'"@
}

/// `r` is the backend chosen for a model of `provider` when the bridge is or is
/// not configured: the mock for `mock`, the bridge for the bridged providers.
pub open spec fn delegate_outcome(r: Result<Backend, AetherError>, provider: Seq<char>, has_bridge: bool) -> bool {
    if provider == "mock"@ {
        r == Ok::<Backend, AetherError>(Backend::Mock)
    } else if bridge_provider(provider) {
        if has_bridge {
            r == Ok::<Backend, AetherError>(Backend::Bridge)
        } else {
            r matches Err(AetherError::OperationFailed(m)) && m@ == msg_no_bridge()
        }
    } else {
        r matches Err(AetherError::OperationFailed(m)) && m@ == msg_no_backend(provider)
    }
}

/// No backend serves a model of `provider`: it is neither the mock nor a bridged
/// provider while the bridge is configured.
pub open spec fn delegate_refuses(provider: Seq<char>, has_bridge: bool) -> bool {
    !(provider == "mock"@ || (bridge_provider(provider) && has_bridge))
}

/// The refusal when no backend serves a model of `provider`.
pub open spec fn delegate_error(provider: Seq<char>, has_bridge: bool) -> Seq<char> {
    if bridge_provider(provider) {
        msg_no_bridge()
    } else {
        msg_no_backend(provider)
    }
}

/// Routes each job to the mock provider or the API bridge, by the provider of the
/// model resolved for it.
pub struct RoutingGenerationProvider<M: GenerationProvider, B: GenerationProvider> {
    pub mock: M,
    pub bridge: Option<B>,
}

pub open spec fn msg_missing_model() -> Seq<char> {
    "RoutingProvider submit requires options.resolved_model"@
}

pub open spec fn msg_job_missing_model() -> Seq<char> {
    "Job missing resolved_model"@
}

impl<M: GenerationProvider, B: GenerationProvider> RoutingGenerationProvider<M, B> {
    /// The backend serving `model`.
    pub fn delegate(&self, model: &ProviderModel) -> (r: Result<Backend, AetherError>)
        ensures
            delegate_outcome(r, model.provider@, self.bridge is Some),
    {
        let p = model.provider.as_str();
        if str_eq(p, "mock") {
            return Ok(Backend::Mock);
        }
        if str_eq(p, "openai") || str_eq(p, "google") || str_eq(p, "bytedance") || str_eq(p, "kuaishou") {
            if self.bridge.is_none() {
                return Err(AetherError::OperationFailed(
                    owned("Real provider requested but API bridge is not configured (build services/aether-api-bridge)"),
                ));
            }
            return Ok(Backend::Bridge);
        }
        let mut m = owned("No provider backend for model provider '");
        push_str(&mut m, p);
        push_str(&mut m, "'");
        Err(AetherError::OperationFailed(m))
    }

    fn job_backend(&self, job: &GenerationJob) -> (r: Result<Backend, AetherError>)
        ensures
            match job.resolved_model {
                None => r matches Err(AetherError::OperationFailed(m)) && m@ == msg_job_missing_model(),
                Some(model) => delegate_outcome(r, model.provider@, self.bridge is Some),
            },
    {
        match &job.resolved_model {
            Some(model) => self.delegate(model),
            None => Err(AetherError::OperationFailed(owned("Job missing resolved_model"))),
        }
    }
}

/// The answers of the backend that serves a model of `provider`, or the refusal
/// when none does: `mock_ok` and `bridge_ok` say whether `r` is an answer of the
/// mock and of the bridge.
pub open spec fn routed_answer<T>(provider: Seq<char>, has_bridge: bool, mock_ok: bool, bridge_ok: bool, r: Result<T, AetherError>) -> bool {
    if provider == "mock"@ {
        mock_ok
    } else if bridge_provider(provider) && has_bridge {
        bridge_ok
    } else {
        r matches Err(AetherError::OperationFailed(x)) && x@ == delegate_error(provider, has_bridge)
    }
}

impl<M: GenerationProvider, B: GenerationProvider> GenerationProvider for RoutingGenerationProvider<M, B> {
    open spec fn submit_answers(&self, request: GenerationRequest, r: Result<ProviderSubmitResult, AetherError>) -> bool {
        match request.options.resolved_model {
            None => r matches Err(AetherError::OperationFailed(m)) && m@ == msg_missing_model(),
            Some(m) => routed_answer(
                m.provider@,
                self.bridge is Some,
                self.mock.submit_answers(request, r),
                self.bridge is Some && self.bridge->0.submit_answers(request, r),
                r,
            ),
        }
    }

    open spec fn status_answers(&self, job: GenerationJob, r: Result<GenerationStatus, AetherError>) -> bool {
        match job.resolved_model {
            None => r matches Err(AetherError::OperationFailed(m)) && m@ == msg_job_missing_model(),
            Some(m) => routed_answer(
                m.provider@,
                self.bridge is Some,
                self.mock.status_answers(job, r),
                self.bridge is Some && self.bridge->0.status_answers(job, r),
                r,
            ),
        }
    }

    open spec fn download_answers(&self, job: GenerationJob, r: Result<Vec<GenerationArtifact>, AetherError>) -> bool {
        match job.resolved_model {
            None => r matches Err(AetherError::OperationFailed(m)) && m@ == msg_job_missing_model(),
            Some(m) => routed_answer(
                m.provider@,
                self.bridge is Some,
                self.mock.download_answers(job, r),
                self.bridge is Some && self.bridge->0.download_answers(job, r),
                r,
            ),
        }
    }

    open spec fn cancel_answers(&self, job: GenerationJob, r: Result<(), AetherError>) -> bool {
        match job.resolved_model {
            None => r matches Err(AetherError::OperationFailed(m)) && m@ == msg_job_missing_model(),
            Some(m) => routed_answer(
                m.provider@,
                self.bridge is Some,
                self.mock.cancel_answers(job, r),
                self.bridge is Some && self.bridge->0.cancel_answers(job, r),
                r,
            ),
        }
    }

    fn provider_name(&self) -> (r: &'static str)
        ensures
            r@ == "routing"@,
    {
        "routing"
    }

    fn supports(&self, model: &ProviderModel) -> (r: bool)
        ensures
            r,
    {
        true
    }

    fn submit(&self, request: &GenerationRequest) -> (r: Result<ProviderSubmitResult, AetherError>)
        ensures
            request.options.resolved_model is None ==> (r matches Err(AetherError::OperationFailed(m)) && m@
                == msg_missing_model()),
            request.options.resolved_model matches Some(m) ==> (delegate_refuses(m.provider@, self.bridge is Some)
                ==> (r matches Err(AetherError::OperationFailed(x)) && x@ == delegate_error(m.provider@, self.bridge is Some))),
    {
        let model = match &request.options.resolved_model {
            Some(m) => m,
            None => return Err(AetherError::OperationFailed(owned("RoutingProvider submit requires options.resolved_model"))),
        };
        match self.delegate(model) {
            Ok(Backend::Mock) => self.mock.submit(request),
            Ok(Backend::Bridge) => match &self.bridge {
                Some(b) => b.submit(request),
                None => Err(AetherError::OperationFailed(
                    owned("Real provider requested but API bridge is not configured (build services/aether-api-bridge)"),
                )),
            },
            Err(e) => Err(e),
        }
    }

    fn status(&self, job: &GenerationJob) -> (r: Result<GenerationStatus, AetherError>)
        ensures
            job.resolved_model is None ==> (r matches Err(AetherError::OperationFailed(m)) && m@ == msg_job_missing_model()),
            job.resolved_model matches Some(m) ==> (delegate_refuses(m.provider@, self.bridge is Some)
                ==> (r matches Err(AetherError::OperationFailed(x)) && x@ == delegate_error(m.provider@, self.bridge is Some))),
    {
        match self.job_backend(job) {
            Ok(Backend::Mock) => self.mock.status(job),
            Ok(Backend::Bridge) => match &self.bridge {
                Some(b) => b.status(job),
                None => Err(AetherError::OperationFailed(
                    owned("Real provider requested but API bridge is not configured (build services/aether-api-bridge)"),
                )),
            },
            Err(e) => Err(e),
        }
    }

    fn download(&self, job: &GenerationJob) -> (r: Result<Vec<GenerationArtifact>, AetherError>)
        ensures
            job.resolved_model is None ==> (r matches Err(AetherError::OperationFailed(m)) && m@ == msg_job_missing_model()),
            job.resolved_model matches Some(m) ==> (delegate_refuses(m.provider@, self.bridge is Some)
                ==> (r matches Err(AetherError::OperationFailed(x)) && x@ == delegate_error(m.provider@, self.bridge is Some))),
    {
        match self.job_backend(job) {
            Ok(Backend::Mock) => self.mock.download(job),
            Ok(Backend::Bridge) => match &self.bridge {
                Some(b) => b.download(job),
                None => Err(AetherError::OperationFailed(
                    owned("Real provider requested but API bridge is not configured (build services/aether-api-bridge)"),
                )),
            },
            Err(e) => Err(e),
        }
    }

    fn cancel(&self, job: &GenerationJob) -> (r: Result<(), AetherError>)
        ensures
            job.resolved_model is None ==> (r matches Err(AetherError::OperationFailed(m)) && m@ == msg_job_missing_model()),
            job.resolved_model matches Some(m) ==> (delegate_refuses(m.provider@, self.bridge is Some)
                ==> (r matches Err(AetherError::OperationFailed(x)) && x@ == delegate_error(m.provider@, self.bridge is Some))),
    {
        match self.job_backend(job) {
            Ok(Backend::Mock) => self.mock.cancel(job),
            Ok(Backend::Bridge) => match &self.bridge {
                Some(b) => b.cancel(job),
                None => Err(AetherError::OperationFailed(
                    owned("Real provider requested but API bridge is not configured (build services/aether-api-bridge)"),
                )),
            },
            Err(e) => Err(e),
        }
    }
}


// ---------------------------------------------------------------------------
// Vault restrictions
// ---------------------------------------------------------------------------

pub open spec fn msg_not_allowed(name: Seq<char>, provider: Seq<char>) -> Seq<char> {
    "Security violation: Vault asset '"@ + name + "' is restricted and not allowed on provider '"@ + provider + "'"@
}

pub open spec fn msg_disallowed(name: Seq<char>, provider: Seq<char>) -> Seq<char> {
    "Security violation: Vault asset '"@ + name + "' is restricted and disallowed on provider '"@ + provider + "'"@
}

/// Why a restricted asset may not go to `provider`, if it may not: its metadata
/// is an object marked `restricted`, and either lists allowed providers without
/// `provider`, or lists disallowed providers with it (checked in that order).
pub open spec fn blocks(a: AssetRefView, provider: Seq<char>) -> Option<Seq<char>> {
    if a.meta.object && a.meta.restricted {
        if a.meta.allowed is Some && !a.meta.allowed->0.contains(provider) {
            Some(msg_not_allowed(a.name, provider))
        } else if a.meta.disallowed is Some && a.meta.disallowed->0.contains(provider) {
            Some(msg_disallowed(a.name, provider))
        } else {
            None
        }
    } else {
        None
    }
}

/// The refusal for the first asset among `refs` that may not go to `provider`.
pub open spec fn first_block(refs: Seq<AssetRefView>, provider: Seq<char>) -> Option<Seq<char>> {
    match first_index(refs, |a: AssetRefView| blocks(a, provider) is Some) {
        Some(k) => blocks(refs[k], provider),
        None => None,
    }
}

/// The refusal for the first reference asset, vault by vault, that may not go to
/// `provider`.
pub open spec fn violation_in(vcs: Seq<VaultContextView>, provider: Seq<char>) -> Option<Seq<char>>
    decreases vcs.len(),
{
    if vcs.len() == 0 {
        None
    } else {
        match violation_in(vcs.drop_last(), provider) {
            Some(m) => Some(m),
            None => first_block(vcs.last().references, provider),
        }
    }
}

proof fn lemma_violation_prefix(s: Seq<VaultContextView>, provider: Seq<char>, n: int)
    requires
        0 <= n <= s.len(),
        violation_in(s.subrange(0, n), provider) is Some,
    ensures
        violation_in(s, provider) == violation_in(s.subrange(0, n), provider),
    decreases s.len(),
{
    if n == s.len() {
        assert(s.subrange(0, n) =~= s);
    } else {
        assert(s.drop_last().subrange(0, n) =~= s.subrange(0, n));
        lemma_violation_prefix(s.drop_last(), provider, n);
    }
}

fn list_contains(v: &Option<Vec<String>>, x: &str) -> (r: bool)
    requires
        v is Some,
    ensures
        r == string_views(v->0@).contains(x@),
{
    match v {
        Some(list) => crate::generate::contains_string(list, x),
        None => false,
    }
}

fn asset_block(a: &VaultAssetRef, provider: &str) -> (r: Option<String>)
    ensures
        opt_view(r) == blocks(a@, provider@),
{
    if a.metadata.object && a.metadata.restricted {
        if a.metadata.allowed_providers.is_some() && !list_contains(&a.metadata.allowed_providers, provider) {
            let mut m = owned("Security violation: Vault asset '");
            push_str(&mut m, a.name.as_str());
            push_str(&mut m, "' is restricted and not allowed on provider '");
            push_str(&mut m, provider);
            push_str(&mut m, "'");
            return Some(m);
        }
        if a.metadata.disallowed_providers.is_some() && list_contains(&a.metadata.disallowed_providers, provider) {
            let mut m = owned("Security violation: Vault asset '");
            push_str(&mut m, a.name.as_str());
            push_str(&mut m, "' is restricted and disallowed on provider '");
            push_str(&mut m, provider);
            push_str(&mut m, "'");
            return Some(m);
        }
    }
    None
}

/// The refusal for the first asset of the prompt context that may not go to
/// `provider`, if any.
pub fn check_vault_restrictions(ctx: &PromptContext, provider: &str) -> (r: Option<String>)
    ensures
        opt_view(r) == violation_in(ctx@.vaults, provider@),
{
    let ghost cv = ctx@.vaults;
    let mut i: usize = 0;
    assert(cv.subrange(0, 0) =~= Seq::<VaultContextView>::empty());
    while i < ctx.vault_context.len()
        invariant
            i <= ctx.vault_context.len(),
            cv == ctx@.vaults,
            violation_in(cv.subrange(0, i as int), provider@) is None,
        decreases ctx.vault_context.len() - i,
    {
        let refs = &ctx.vault_context[i].reference_assets;
        let ghost rv = refs@.map_values(|x: VaultAssetRef| x@);
        proof {
            assert(cv[i as int] == ctx.vault_context@[i as int]@);
            assert(cv.subrange(0, i + 1).drop_last() =~= cv.subrange(0, i as int));
            assert(cv.subrange(0, i + 1).last() == cv[i as int]);
        }
        let mut k: usize = 0;
        while k < refs.len()
            invariant
                k <= refs.len(),
                i < ctx.vault_context.len(),
                cv == ctx@.vaults,
                rv == refs@.map_values(|x: VaultAssetRef| x@),
                rv == cv[i as int].references,
                violation_in(cv.subrange(0, i as int), provider@) is None,
                cv.subrange(0, i + 1).drop_last() == cv.subrange(0, i as int),
                cv.subrange(0, i + 1).last() == cv[i as int],
                forall|j: int| 0 <= j < k ==> (#[trigger] blocks(rv[j], provider@)) is None,
            decreases refs.len() - k,
        {
            assert(rv[k as int] == refs@[k as int]@);
            let b = asset_block(&refs[k], provider);
            if b.is_some() {
                proof {
                    lemma_first_index(rv, |a: AssetRefView| blocks(a, provider@) is Some, k as int);
                    assert(violation_in(cv.subrange(0, i + 1), provider@) == first_block(rv, provider@));
                    lemma_violation_prefix(cv, provider@, i + 1);
                }
                return b;
            }
            k = k + 1;
        }
        proof {
            lemma_first_index_none(rv, |a: AssetRefView| blocks(a, provider@) is Some);
        }
        i = i + 1;
    }
    assert(cv.subrange(0, i as int) =~= cv);
    None
}

// ---------------------------------------------------------------------------
// Merging the prompter's API options into the request options
// ---------------------------------------------------------------------------

/// A key/value member set in a list of members: replaced where the key is, else
/// added.
pub open spec fn insert_pair<V>(m: Seq<(Seq<char>, V)>, e: (Seq<char>, V)) -> Seq<(Seq<char>, V)> {
    match first_index(m, |x: (Seq<char>, V)| x.0 == e.0) {
        Some(i) => m.update(i, e),
        None => m.push(e),
    }
}

/// The members of `ov` laid over those of `ex`, in order.
pub open spec fn overlay(ex: Seq<(Seq<char>, Seq<char>)>, ov: Seq<(Seq<char>, Seq<char>)>) -> Seq<(Seq<char>, Seq<char>)>
    decreases ov.len(),
{
    if ov.len() == 0 { ex } else { insert_pair(overlay(ex, ov.drop_last()), ov.last()) }
}

/// One provider's parameters merged into the options: both objects are laid over
/// one another; an object is left as it is by anything else; any other value, or
/// a provider without parameters, takes the new ones.
pub open spec fn merge_entry(t: Seq<(Seq<char>, ParamsView)>, e: (Seq<char>, ParamsView)) -> Seq<(Seq<char>, ParamsView)> {
    match first_index(t, |x: (Seq<char>, ParamsView)| x.0 == e.0) {
        Some(i) => match t[i].1 {
            ParamsView::Object(ex) => match e.1 {
                ParamsView::Object(ov) => t.update(i, (e.0, ParamsView::Object(overlay(ex, ov)))),
                ParamsView::Other(_) => t,
            },
            ParamsView::Other(_) => t.update(i, e),
        },
        None => t.push(e),
    }
}

/// Every provider's parameters of `api` merged in, in order.
pub open spec fn merge_spec(t: Seq<(Seq<char>, ParamsView)>, api: Seq<(Seq<char>, ParamsView)>) -> Seq<(Seq<char>, ParamsView)>
    decreases api.len(),
{
    if api.len() == 0 { t } else { merge_entry(merge_spec(t, api.drop_last()), api.last()) }
}

fn find_key_str(m: &Vec<(String, String)>, k: &str) -> (r: Option<usize>)
    ensures
        match r {
            Some(i) => i < m.len() && first_index(pairs_view(m@), |x: (Seq<char>, Seq<char>)| x.0 == k@) == Some(i as int),
            None => first_index(pairs_view(m@), |x: (Seq<char>, Seq<char>)| x.0 == k@) is None,
        },
{
    let ghost pv = pairs_view(m@);
    let mut i: usize = 0;
    while i < m.len()
        invariant
            i <= m.len(),
            pv == pairs_view(m@),
            forall|j: int| 0 <= j < i ==> (#[trigger] pv[j]).0 != k@,
        decreases m.len() - i,
    {
        assert(pv[i as int].0 == m@[i as int].0@);
        if str_eq(m[i].0.as_str(), k) {
            proof {
                lemma_first_index(pv, |x: (Seq<char>, Seq<char>)| x.0 == k@, i as int);
            }
            return Some(i);
        }
        i = i + 1;
    }
    proof {
        lemma_first_index_none(pv, |x: (Seq<char>, Seq<char>)| x.0 == k@);
    }
    None
}

fn find_key_params(m: &Vec<(String, ParamsValue)>, k: &str) -> (r: Option<usize>)
    ensures
        match r {
            Some(i) => i < m.len() && first_index(params_view(m@), |x: (Seq<char>, ParamsView)| x.0 == k@) == Some(i as int),
            None => first_index(params_view(m@), |x: (Seq<char>, ParamsView)| x.0 == k@) is None,
        },
{
    let ghost pv = params_view(m@);
    let mut i: usize = 0;
    while i < m.len()
        invariant
            i <= m.len(),
            pv == params_view(m@),
            forall|j: int| 0 <= j < i ==> (#[trigger] pv[j]).0 != k@,
        decreases m.len() - i,
    {
        assert(pv[i as int].0 == m@[i as int].0@);
        if str_eq(m[i].0.as_str(), k) {
            proof {
                lemma_first_index(pv, |x: (Seq<char>, ParamsView)| x.0 == k@, i as int);
            }
            return Some(i);
        }
        i = i + 1;
    }
    proof {
        lemma_first_index_none(pv, |x: (Seq<char>, ParamsView)| x.0 == k@);
    }
    None
}

fn overlay_exec(ex: &Vec<(String, String)>, ov: &Vec<(String, String)>) -> (r: Vec<(String, String)>)
    ensures
        pairs_view(r@) == overlay(pairs_view(ex@), pairs_view(ov@)),
{
    let ghost ovv = pairs_view(ov@);
    let mut out = copy_pairs(ex);
    let mut i: usize = 0;
    assert(ovv.subrange(0, 0) =~= Seq::<(Seq<char>, Seq<char>)>::empty());
    while i < ov.len()
        invariant
            i <= ov.len(),
            ovv == pairs_view(ov@),
            pairs_view(out@) == overlay(pairs_view(ex@), ovv.subrange(0, i as int)),
        decreases ov.len() - i,
    {
        proof {
            assert(ovv.subrange(0, i + 1).drop_last() =~= ovv.subrange(0, i as int));
            assert(ovv.subrange(0, i + 1).last() == ovv[i as int]);
            assert(ovv[i as int] == (ov@[i as int].0@, ov@[i as int].1@));
        }
        let e = (ov[i].0.clone(), ov[i].1.clone());
        let ghost before = pairs_view(out@);
        match find_key_str(&out, e.0.as_str()) {
            Some(j) => {
                out[j] = e;
                assert(pairs_view(out@) =~= before.update(j as int, ovv[i as int]));
            },
            None => {
                out.push(e);
                assert(pairs_view(out@) =~= before.push(ovv[i as int]));
            },
        }
        i = i + 1;
    }
    assert(ovv.subrange(0, i as int) =~= ovv);
    out
}

/// Merges the prompter's per-provider API parameters `api` into `target`.
pub fn merge_api_options(target: &mut Vec<(String, ParamsValue)>, api: &Vec<(String, ParamsValue)>)
    ensures
        params_view(final(target)@) == merge_spec(params_view(old(target)@), params_view(api@)),
{
    let ghost t0 = params_view(target@);
    let ghost av = params_view(api@);
    let mut i: usize = 0;
    assert(av.subrange(0, 0) =~= Seq::<(Seq<char>, ParamsView)>::empty());
    while i < api.len()
        invariant
            i <= api.len(),
            av == params_view(api@),
            params_view(target@) == merge_spec(t0, av.subrange(0, i as int)),
        decreases api.len() - i,
    {
        proof {
            assert(av.subrange(0, i + 1).drop_last() =~= av.subrange(0, i as int));
            assert(av.subrange(0, i + 1).last() == av[i as int]);
            assert(av[i as int] == (api@[i as int].0@, api@[i as int].1@));
        }
        let provider = &api[i].0;
        let params = &api[i].1;
        let ghost before = params_view(target@);
        match find_key_params(target, provider.as_str()) {
            Some(j) => {
                let replacement: Option<ParamsValue> = match (&target[j].1, params) {
                    (ParamsValue::Object(existing), ParamsValue::Object(ov)) => Some(ParamsValue::Object(overlay_exec(existing, ov))),
                    (ParamsValue::Object(_), ParamsValue::Other(_)) => None,
                    (ParamsValue::Other(_), _) => Some(params.duplicate()),
                };
                match replacement {
                    Some(v) => {
                        let ghost nv = v@;
                        target[j] = (provider.clone(), v);
                        assert(params_view(target@) =~= before.update(j as int, (provider@, nv)));
                    },
                    None => {},
                }
            },
            None => {
                let e = (provider.clone(), params.duplicate());
                target.push(e);
                assert(params_view(target@) =~= before.push(av[i as int]));
            },
        }
        i = i + 1;
    }
    assert(av.subrange(0, i as int) =~= av);
}


// ---------------------------------------------------------------------------
// The runtime
// ---------------------------------------------------------------------------

/// The message of a job that waits for the user's answers.
pub open spec fn msg_clarification() -> Seq<char> {
    "Prompter needs clarification before image API call"@
}

/// The message when no model serves a kind.
pub open spec fn msg_no_model(kind: GenerationKind) -> Seq<char> {
    "No enabled model found for kind "@ + kind_name(kind)
}

/// The models a route tries, in order: its primary, then its fallback.
pub open spec fn route_candidates(rt: RouteView) -> Seq<crate::generate::RoutedView> {
    match rt.fallback {
        Some(f) => seq![rt.primary, f],
        None => seq![rt.primary],
    }
}

/// The options submitted with candidate `c` and prompt `p`: the prompter's API
/// parameters merged in, its clarifications recorded, and the model, handler and
/// prompt chosen; the request is marked as using the fallback when `c` is it.
pub open spec fn submitted_options(o: crate::job::OptionsView, p: ProfessionalPrompt, c: crate::generate::RoutedView, rt: RouteView) -> crate::job::OptionsView {
    crate::job::OptionsView {
        provider_params: match p.technical.api_options {
            Some(a) => merge_spec(o.provider_params, params_view(a@)),
            None => o.provider_params,
        },
        prompter_clarifications: match p.technical.clarifications {
            Some(x) => Some(x@),
            None => o.prompter_clarifications,
        },
        resolved_model: Some(c.model),
        bridge_handler: Some(c.handler),
        professional_prompt: Some(p.professional_prompt@),
        used_fallback_model: o.used_fallback_model || (rt.fallback is Some && rt.fallback->0.model.id == c.model.id),
        ..o
    }
}

/// The refusal, if any, of the request's vault assets for `provider`.
pub open spec fn request_violation(o: crate::job::OptionsView, provider: Seq<char>) -> Option<Seq<char>> {
    violation_in(vaults_of(o.vault_context), provider)
}

/// Runs generation requests against a provider, with a prompt maker and a model
/// registry; `routing` is the loaded routing configuration, if any.
pub struct GenerationRuntime<P: GenerationProvider, M: PromptMaker> {
    pub provider: P,
    pub prompt_maker: M,
    pub model_registry: ModelRegistry,
    pub routing: Option<RoutingConfig>,
}

/// The route a runtime resolves for a kind and an optional requested model.
#[verifier::opaque]
pub open spec fn runtime_route<P: GenerationProvider, M: PromptMaker>(
    rt: &GenerationRuntime<P, M>,
    kind: GenerationKind,
    requested: Option<Seq<char>>,
) -> Option<RouteView> {
    route_spec(
        match rt.routing {
            Some(c) => Some(entries_view(c.routes@)),
            None => None,
        },
        models_view(rt.model_registry.models@),
        rt.model_registry.keys,
        kind,
        requested,
    )
}

/// A job just created for `request`: submitted, with nothing resolved yet.
pub open spec fn fresh_job(job: GenerationJob, request: GenerationRequest) -> bool {
    &&& job.job_ref == request.job_ref
    &&& job.kind == request.kind
    &&& opt_view(job.requested_model) == opt_view(request.model)
    &&& job.inputs@ == request.inputs@
    &&& job.options@ == request.options@
    &&& job.status == GenerationStatus::Submitted
    &&& job.prompt is None
    &&& job.provider_job_id is None
    &&& job.artifacts@.len() == 0
    &&& job.error is None
    &&& job.resolved_model is None
}

/// The prompt maker was given `c`: the request's options, the model it targets.
pub open spec fn context_for(c: PromptMakerContext, o: crate::job::OptionsView, target: Seq<char>) -> bool {
    &&& opt_view(c.project_summary) == o.project_summary
    &&& opt_view(c.locale) == o.locale
    &&& opt_view(c.style_hint) == o.style
    &&& opt_context_view(c.vault_context) == o.vault_context
    &&& c.target_model_id matches Some(t) && t@ == target
    &&& c.explicit_options@ == o
}

/// `q` is `request` as submitted, with options `o`.
pub open spec fn submission_of(q: GenerationRequest, request: GenerationRequest, o: crate::job::OptionsView) -> bool {
    &&& q.job_ref == request.job_ref
    &&& q.kind == request.kind
    &&& q.user_request@ == request.user_request@
    &&& opt_view(q.model) == opt_view(request.model)
    &&& q.inputs@ == request.inputs@
    &&& q.options@ == o
}

/// What trying one candidate came back with: the context given to the prompt
/// maker and its answer, and, when it gave a prompt, the request submitted and the
/// provider's answer.
pub struct Tried {
    pub context: PromptMakerContext,
    pub prompt: Result<ProfessionalPrompt, AetherError>,
    pub submitted: Option<(GenerationRequest, Result<ProviderSubmitResult, AetherError>)>,
}

/// `t` is what trying candidate `c` of route `route` for `request` can give: the
/// prompt maker asked for that model, and, with a prompt, the request carrying the
/// options submitted with it sent to the provider.
pub open spec fn tried_candidate<P: GenerationProvider, M: PromptMaker>(
    rt: &GenerationRuntime<P, M>,
    request: GenerationRequest,
    route: RouteView,
    c: crate::generate::RoutedView,
    t: Tried,
) -> bool {
    &&& context_for(t.context, request.options@, c.model.id)
    &&& rt.prompt_maker.prompt_answers(request.kind, request.user_request@, t.context, t.prompt)
    &&& match t.prompt {
        Ok(p) => t.submitted matches Some(x) && submission_of(x.0, request, submitted_options(request.options@, p, c, route))
            && rt.provider.submit_answers(x.0, x.1),
        Err(_) => t.submitted is None,
    }
}

/// The provider refused the submission of a candidate.
pub open spec fn refused(t: Tried) -> bool {
    t.prompt is Ok && (t.submitted matches Some(x) && x.1 is Err)
}

/// The candidates of `route` were tried in order, the primary first, each next one
/// only after the one before was refused, until one was not or none was left.
pub open spec fn attempts_made<P: GenerationProvider, M: PromptMaker>(
    rt: &GenerationRuntime<P, M>,
    request: GenerationRequest,
    route: RouteView,
    ts: Seq<Tried>,
) -> bool {
    let cs = route_candidates(route);
    &&& 1 <= ts.len() <= cs.len()
    &&& forall|k: int| 0 <= k < ts.len() ==> tried_candidate(rt, request, route, cs[k], #[trigger] ts[k])
    &&& forall|k: int| 0 <= k < ts.len() - 1 ==> refused(#[trigger] ts[k])
    &&& ts.len() < cs.len() ==> !refused(ts.last())
}

/// The job waiting for the user's answers, for model `model`: no prompt, and the
/// prompter's questions (`payload`, when it is JSON) added to the options.
pub open spec fn clarified(job: GenerationJob, request: GenerationRequest, model: ModelView, payload: Seq<char>) -> bool {
    &&& job.job_ref == request.job_ref
    &&& job.kind == request.kind
    &&& opt_view(job.requested_model) == opt_view(request.model)
    &&& job.inputs@ == request.inputs@
    &&& job.resolved_model matches Some(m) && m@ == model
    &&& job.prompt is None
    &&& job.status == GenerationStatus::AwaitingClarification
    &&& opt_view(job.error) == Some(msg_clarification())
    &&& job.provider_job_id is None
    &&& job.artifacts@.len() == 0
    &&& job.options@ == (crate::job::OptionsView {
        prompter_clarifications: if json_error_message(payload) is None {
            Some(payload)
        } else {
            request.options@.prompter_clarifications
        },
        ..request.options@
    })
}

/// The job just accepted by the provider: for model `model`, with prompt `p`,
/// options `o`, the provider's job id and status, and nothing downloaded yet.
pub open spec fn submitted_job(
    j: GenerationJob,
    request: GenerationRequest,
    model: ModelView,
    p: ProfessionalPrompt,
    o: GenerationOptions,
    res: ProviderSubmitResult,
) -> bool {
    &&& j.job_ref == request.job_ref
    &&& j.kind == request.kind
    &&& opt_view(j.requested_model) == opt_view(request.model)
    &&& j.inputs@ == request.inputs@
    &&& j.resolved_model matches Some(m) && m@ == model
    &&& j.prompt == Some(p)
    &&& j.options == o
    &&& j.provider_job_id == Some(res.provider_job_id)
    &&& j.status == res.status
    &&& j.artifacts@.len() == 0
    &&& j.error is None
}

/// `job` is `j` with status `s` and artifacts `a`, updated at some time.
pub open spec fn settled(job: GenerationJob, j: GenerationJob, s: GenerationStatus, a: Vec<GenerationArtifact>) -> bool {
    job == (GenerationJob { status: s, artifacts: a, updated_at_ms: job.updated_at_ms, ..j })
}

/// The end of a run once the provider accepted job `j`: its status is asked; an
/// error is returned; a ready job's files are downloaded and it ends ready with
/// them (or with the download's error); any other status ends the run with it.
pub open spec fn after_submission<P: GenerationProvider, M: PromptMaker>(
    rt: &GenerationRuntime<P, M>,
    j: GenerationJob,
    r: Result<GenerationJob, AetherError>,
) -> bool {
    exists|st: Result<GenerationStatus, AetherError>| #[trigger] rt.provider.status_answers(j, st) && match st {
        Err(e) => r == Err::<GenerationJob, AetherError>(e),
        Ok(s) => if s == GenerationStatus::Ready {
            exists|dl: Result<Vec<GenerationArtifact>, AetherError>|
                #[trigger] rt.provider.download_answers(GenerationJob { status: GenerationStatus::Downloading, ..j }, dl)
                && match dl {
                    Err(e) => r == Err::<GenerationJob, AetherError>(e),
                    Ok(a) => r matches Ok(job) && settled(job, j, GenerationStatus::Ready, a),
                }
        } else {
            r matches Ok(job) && settled(job, j, s, j.artifacts)
        },
    }
}

/// How a run that tried `ts` ends: a prompter that needs clarification gives the
/// job waiting for it; another prompter error, or the refusal of the last
/// candidate, is returned; an accepted submission goes on as `after_submission` says.
pub open spec fn run_ends<P: GenerationProvider, M: PromptMaker>(
    rt: &GenerationRuntime<P, M>,
    request: GenerationRequest,
    route: RouteView,
    ts: Seq<Tried>,
    r: Result<GenerationJob, AetherError>,
) -> bool {
    let t = ts.last();
    let c = route_candidates(route)[ts.len() - 1];
    match t.prompt {
        Err(AetherError::PrompterNeedsClarification(payload)) => r matches Ok(job) && clarified(job, request, c.model, payload@),
        Err(e) => r == Err::<GenerationJob, AetherError>(e),
        Ok(p) => match t.submitted {
            Some(x) => match x.1 {
                Err(e) => r == Err::<GenerationJob, AetherError>(e),
                Ok(res) => exists|j: GenerationJob| submitted_job(j, request, c.model, p, x.0.options, res)
                    && #[trigger] after_submission(rt, j, r),
            },
            None => false,
        },
    }
}

/// What running `request` on `rt` gives. Without a route, the no-model error;
/// with a vault asset refused for the primary model's provider, that refusal;
/// otherwise the candidates were tried in order and the run ended as `run_ends`
/// says, from the prompt maker's and the provider's answers.
pub open spec fn run_outcome<P: GenerationProvider, M: PromptMaker>(
    rt: &GenerationRuntime<P, M>,
    request: GenerationRequest,
    r: Result<GenerationJob, AetherError>,
) -> bool {
    let route = runtime_route(rt, request.kind, opt_view(request.model));
    &&& route is None ==> (r matches Err(AetherError::OperationFailed(m)) && m@ == msg_no_model(request.kind))
    &&& route matches Some(x) ==> (request_violation(request.options@, x.primary.model.provider) matches Some(v)
        ==> (r matches Err(AetherError::OperationFailed(m)) && m@ == v))
    &&& route matches Some(x) ==> (request_violation(request.options@, x.primary.model.provider) is None
        ==> exists|ts: Seq<Tried>| #[trigger] attempts_made(rt, request, x, ts) && run_ends(rt, request, x, ts, r))
}

fn opt_as_str(o: &Option<String>) -> (r: Option<&str>)
    ensures
        opt_str_view(r) == opt_view(*o),
{
    match o {
        Some(s) => Some(s.as_str()),
        None => None,
    }
}

fn copy_ref_list(v: &Vec<Ref>) -> (r: Vec<Ref>)
    ensures
        r@ == v@,
{
    let mut r: Vec<Ref> = Vec::new();
    let mut i: usize = 0;
    while i < v.len()
        invariant
            i <= v.len(),
            r@ == v@.subrange(0, i as int),
        decreases v.len() - i,
    {
        r.push(v[i]);
        i = i + 1;
    }
    assert(v@.subrange(0, i as int) =~= v@);
    r
}

fn prompt_context(o: &GenerationOptions, target: Option<String>) -> (c: PromptMakerContext)
    ensures
        opt_view(c.project_summary) == o@.project_summary,
        opt_view(c.locale) == o@.locale,
        opt_view(c.style_hint) == o@.style,
        opt_context_view(c.vault_context) == o@.vault_context,
        c.target_model_id == target,
        c.explicit_options@ == o@,
{
    PromptMakerContext {
        project_summary: copy_opt(&o.project_summary),
        locale: copy_opt(&o.locale),
        style_hint: copy_opt(&o.style),
        vault_context: crate::job::copy_opt_context(&o.vault_context),
        target_model_id: target,
        explicit_options: o.duplicate(),
    }
}

fn options_for(o: &GenerationOptions, p: &ProfessionalPrompt, c: &crate::generate::RoutedModel, route: &ModelRoute) -> (r: GenerationOptions)
    ensures
        r@ == submitted_options(o@, *p, c@, route@),
{
    let mut opts = o.duplicate();
    match &p.technical.api_options {
        Some(api) => merge_api_options(&mut opts.provider_params, api),
        None => {},
    }
    match &p.technical.clarifications {
        Some(x) => {
            opts.prompter_clarifications = Some(x.clone());
        },
        None => {},
    }
    opts.resolved_model = Some(c.model.duplicate());
    opts.bridge_handler = Some(c.bridge_handler.clone());
    opts.professional_prompt = Some(p.professional_prompt.clone());
    let is_fallback = match &route.fallback {
        Some(f) => str_eq(f.model.id.as_str(), c.model.id.as_str()),
        None => false,
    };
    if is_fallback {
        opts.used_fallback_model = true;
    }
    opts
}

fn new_job(request: &GenerationRequest, now: u64) -> (job: GenerationJob)
    ensures
        fresh_job(job, *request),
        job.created_at_ms == now,
        job.updated_at_ms == now,
{
    GenerationJob {
        job_ref: request.job_ref,
        kind: request.kind,
        status: GenerationStatus::Submitted,
        requested_model: copy_opt(&request.model),
        resolved_model: None,
        provider_job_id: None,
        prompt: None,
        inputs: copy_ref_list(&request.inputs),
        artifacts: Vec::new(),
        error: None,
        created_at_ms: now,
        updated_at_ms: now,
        options: request.options.duplicate(),
    }
}

fn clarification_job(request: &GenerationRequest, model: &ProviderModel, payload: String, created_at: u64, now: u64) -> (job: GenerationJob)
    ensures
        job.resolved_model matches Some(m) && m@ == model@,
        job.prompt is None,
        job.status == GenerationStatus::AwaitingClarification,
        opt_view(job.error) == Some(msg_clarification()),
        job.provider_job_id is None,
        job.artifacts@.len() == 0,
        job.options@ == (crate::job::OptionsView { prompter_clarifications: job.options@.prompter_clarifications, ..request.options@ }),
        job.options@.prompter_clarifications == (if json_error_message(payload@) is None {
            Some(payload@)
        } else {
            request.options@.prompter_clarifications
        }),
        job.job_ref == request.job_ref,
        job.kind == request.kind,
        opt_view(job.requested_model) == opt_view(request.model),
        job.inputs@ == request.inputs@,
        job.created_at_ms == created_at,
        job.updated_at_ms == now,
{
    let mut job = new_job(request, created_at);
    job.status = GenerationStatus::AwaitingClarification;
    job.resolved_model = Some(model.duplicate());
    if json_error(payload.as_str()).is_none() {
        job.options.prompter_clarifications = Some(payload);
    }
    job.error = Some(owned("Prompter needs clarification before image API call"));
    job.updated_at_ms = now;
    assert(job.options@ =~= (crate::job::OptionsView {
        prompter_clarifications: job.options@.prompter_clarifications,
        ..request.options@
    }));
    job
}

/// The outcome of trying one candidate model.
pub enum Attempt {
    /// The prompter needs the user's answers: the run ends with this job.
    Clarify(GenerationJob),
    /// The prompter failed: the run ends with this error.
    Fatal(AetherError),
    /// The provider accepted the submission made with this prompt and these options.
    Submitted(ProviderSubmitResult, ProfessionalPrompt, GenerationOptions),
    /// The provider refused the submission.
    Refused(AetherError),
}

/// What the provider's answer to a status request leaves to do.
#[derive(Debug)]
pub enum StatusStep {
    /// The request failed: the run ends with this error.
    Failed(AetherError),
    /// The job is not ready: the run ends with it.
    Done(GenerationJob),
    /// The job is ready: its files are downloaded next, for this job.
    Download(GenerationJob),
}

/// The job after the provider answered `status` for it, at time `now`: the error;
/// the job, ready to download (marked downloading); or the job with its status.
pub fn after_status(job: GenerationJob, status: Result<GenerationStatus, AetherError>, now: u64) -> (r: StatusStep)
    ensures
        match status {
            Err(e) => r == StatusStep::Failed(e),
            Ok(s) => if s == GenerationStatus::Ready {
                r == StatusStep::Download(GenerationJob { status: GenerationStatus::Downloading, ..job })
            } else {
                r == StatusStep::Done(GenerationJob { status: s, updated_at_ms: now, ..job })
            },
        },
{
    match status {
        Err(e) => StatusStep::Failed(e),
        Ok(s) => {
            let mut job = job;
            if s == GenerationStatus::Ready {
                job.status = GenerationStatus::Downloading;
                StatusStep::Download(job)
            } else {
                job.status = s;
                job.updated_at_ms = now;
                StatusStep::Done(job)
            }
        },
    }
}

/// The job after the provider answered `download` for it, at time `now`: the
/// error, or the job ready with the files downloaded.
pub fn after_download(job: GenerationJob, download: Result<Vec<GenerationArtifact>, AetherError>, now: u64) -> (r: Result<GenerationJob, AetherError>)
    ensures
        match download {
            Err(e) => r == Err::<GenerationJob, AetherError>(e),
            Ok(a) => r == Ok::<GenerationJob, AetherError>(GenerationJob {
                status: GenerationStatus::Ready,
                artifacts: a,
                updated_at_ms: now,
                ..job
            }),
        },
{
    match download {
        Err(e) => Err(e),
        Ok(a) => {
            let mut job = job;
            job.status = GenerationStatus::Ready;
            job.artifacts = a;
            job.updated_at_ms = now;
            Ok(job)
        },
    }
}

impl<P: GenerationProvider, M: PromptMaker> GenerationRuntime<P, M> {
    fn routing_ref(&self) -> (r: Option<&RoutingConfig>)
        ensures
            match r {
                Some(c) => self.routing matches Some(d) && *c == d,
                None => self.routing is None,
            },
    {
        match &self.routing {
            Some(c) => Some(c),
            None => None,
        }
    }

    fn start(&self, request: &GenerationRequest) -> (r: Result<ModelRoute, AetherError>)
        ensures
            ({
                let route = runtime_route(self, request.kind, opt_view(request.model));
                &&& route is None ==> (r matches Err(AetherError::OperationFailed(m)) && m@ == msg_no_model(request.kind))
                &&& route matches Some(x) ==> (request_violation(request.options@, x.primary.model.provider) matches Some(v)
                    ==> (r matches Err(AetherError::OperationFailed(m)) && m@ == v))
                &&& r matches Ok(rt) ==> route == Some(rt@) && request_violation(request.options@, rt@.primary.model.provider) is None
                &&& route matches Some(x) ==> (request_violation(request.options@, x.primary.model.provider) is None ==> r is Ok)
            }),
    {
        let cfg = self.routing_ref();
        let requested = opt_as_str(&request.model);
        let result = self.model_registry.resolve_route(cfg, request.kind, requested);
        proof {
            let cv = match cfg {
                Some(c) => Some(entries_view(c.routes@)),
                None => None,
            };
            let sv = match &self.routing {
                Some(c) => Some(entries_view(c.routes@)),
                None => None,
            };
            assert(cv == sv);
            assert(opt_str_view(requested) == opt_view(request.model));
            reveal(runtime_route);
            assert(runtime_route(self, request.kind, opt_view(request.model)) == route_spec(
                cv,
                models_view(self.model_registry.models@),
                self.model_registry.keys,
                request.kind,
                opt_str_view(requested),
            ));
        }
        let route = match result {
            Some(route) => route,
            None => {
                let mut m = owned("No enabled model found for kind ");
                let n = request.kind.name();
                push_str(&mut m, n.as_str());
                return Err(AetherError::OperationFailed(m));
            },
        };
        match &request.options.vault_context {
            Some(vc) => match check_vault_restrictions(vc, route.primary.model.provider.as_str()) {
                Some(m) => return Err(AetherError::OperationFailed(m)),
                None => {},
            },
            None => {},
        }
        Ok(route)
    }

    fn attempt<C: Clock>(
        &self,
        request: &GenerationRequest,
        route: &ModelRoute,
        candidate: &crate::generate::RoutedModel,
        created_at: u64,
        clock: &C,
    ) -> (r: (Attempt, Ghost<Tried>))
        ensures
            tried_candidate(self, *request, route@, candidate@, r.1@),
            match r.0 {
                Attempt::Clarify(job) => r.1@.prompt matches Err(AetherError::PrompterNeedsClarification(pl))
                    && clarified(job, *request, candidate@.model, pl@),
                Attempt::Fatal(e) => r.1@.prompt == Err::<ProfessionalPrompt, AetherError>(e) && !(e is PrompterNeedsClarification),
                Attempt::Submitted(res, p, o) => r.1@.prompt == Ok::<ProfessionalPrompt, AetherError>(p)
                    && (r.1@.submitted matches Some(x) && x.0.options == o && x.1 == Ok::<ProviderSubmitResult, AetherError>(res)),
                Attempt::Refused(e) => r.1@.prompt is Ok && (r.1@.submitted matches Some(x) && x.1 == Err::<ProviderSubmitResult, AetherError>(e)),
            },
    {
        let ctx = prompt_context(&request.options, Some(candidate.model.id.clone()));
        let answer = self.prompt_maker.make_prompt(request.kind, request.user_request.as_str(), &ctx);
        let ghost pr = answer;
        let prompt = match answer {
            Ok(p) => p,
            Err(AetherError::PrompterNeedsClarification(payload)) => {
                let job = clarification_job(request, &candidate.model, payload, created_at, clock.now_ms());
                return (Attempt::Clarify(job), Ghost(Tried { context: ctx, prompt: pr, submitted: None }));
            },
            Err(e) => {
                return (Attempt::Fatal(e), Ghost(Tried { context: ctx, prompt: pr, submitted: None }));
            },
        };
        let options = options_for(&request.options, &prompt, candidate, route);
        let req_for_provider = GenerationRequest {
            job_ref: request.job_ref,
            kind: request.kind,
            user_request: request.user_request.clone(),
            model: copy_opt(&request.model),
            inputs: copy_ref_list(&request.inputs),
            options,
        };
        let sent = self.provider.submit(&req_for_provider);
        let ghost t = Tried { context: ctx, prompt: pr, submitted: Some((req_for_provider, sent)) };
        match sent {
            Ok(res) => (Attempt::Submitted(res, prompt, req_for_provider.options), Ghost(t)),
            Err(e) => (Attempt::Refused(e), Ghost(t)),
        }
    }

    /// Runs `request` to completion: resolves the route, refuses vault assets
    /// restricted for the primary model's provider, then for each candidate in
    /// order (the primary first) makes the prompt and submits, until a submission
    /// is accepted; then asks the job's status and downloads the files of a ready
    /// job. A prompter that needs clarification ends the run with a job waiting for
    /// it; a prompter error, or the refusal of the last candidate, ends it with that
    /// error. `clock` gives the times recorded on the job.
    #[verifier::spinoff_prover]
    pub fn run_to_completion<C: Clock>(&self, request: GenerationRequest, clock: &C) -> (r: Result<GenerationJob, AetherError>)
        ensures
            run_outcome(self, request, r),
    {
        let route = match self.start(&request) {
            Ok(route) => route,
            Err(e) => return Err(e),
        };
        let ghost rv = route@;
        let created_at = clock.now_ms();
        let candidates = route.candidates();
        let ghost cands = route_candidates(rv);
        assert(candidates@.len() == cands.len());
        assert(forall|k: int| 0 <= k < cands.len() ==> (#[trigger] cands[k]) == candidates@[k]@);
        let mut ts: Ghost<Seq<Tried>> = Ghost(Seq::empty());
        let mut chosen: Option<(usize, ProviderSubmitResult, ProfessionalPrompt, GenerationOptions)> = None;
        let mut last_err: Option<AetherError> = None;
        let mut i: usize = 0;
        while i < candidates.len() && chosen.is_none()
            invariant
                i <= candidates.len(),
                candidates@.len() == cands.len(),
                cands.len() >= 1,
                forall|k: int| 0 <= k < cands.len() ==> (#[trigger] cands[k]) == candidates@[k]@,
                cands == route_candidates(rv),
                rv == route@,
                runtime_route(self, request.kind, opt_view(request.model)) == Some(rv),
                request_violation(request.options@, rv.primary.model.provider) is None,
                ts@.len() == i,
                forall|k: int| 0 <= k < i ==> tried_candidate(self, request, rv, cands[k], #[trigger] ts@[k]),
                chosen is None ==> forall|k: int| 0 <= k < i ==> refused(#[trigger] ts@[k]),
                chosen is None && i > 0 ==> (last_err matches Some(e) && ts@[i - 1].submitted matches Some(x)
                    && x.1 == Err::<ProviderSubmitResult, AetherError>(e)),
                chosen matches Some(c) ==> {
                    &&& c.0 + 1 == i
                    &&& forall|k: int| 0 <= k < i - 1 ==> refused(#[trigger] ts@[k])
                    &&& ts@[c.0 as int].prompt == Ok::<ProfessionalPrompt, AetherError>(c.2)
                    &&& ts@[c.0 as int].submitted matches Some(x) && x.0.options == c.3
                        && x.1 == Ok::<ProviderSubmitResult, AetherError>(c.1)
                },
            decreases candidates.len() - i,
        {
            let (outcome, t) = self.attempt(&request, &route, candidates[i], created_at, clock);
            let ghost before = ts@;
            proof {
                ts@ = ts@.push(t@);
                assert(ts@.last() == t@);
                assert forall|k: int| 0 <= k < i implies #[trigger] ts@[k] == before[k] by {}
            }
            match outcome {
                Attempt::Clarify(job) => {
                    proof {
                        assert(attempts_made(self, request, rv, ts@));
                        assert(run_ends(self, request, rv, ts@, Ok::<GenerationJob, AetherError>(job)));
                    }
                    return Ok(job);
                },
                Attempt::Fatal(e) => {
                    proof {
                        assert(attempts_made(self, request, rv, ts@));
                        assert(run_ends(self, request, rv, ts@, Err::<GenerationJob, AetherError>(e)));
                    }
                    return Err(e);
                },
                Attempt::Submitted(res, p, o) => {
                    chosen = Some((i, res, p, o));
                },
                Attempt::Refused(e) => {
                    last_err = Some(e);
                },
            }
            i = i + 1;
        }
        let (ci, res, prompt, options) = match chosen {
            Some(c) => c,
            None => {
                proof {
                    assert(attempts_made(self, request, rv, ts@));
                }
                return match last_err {
                    Some(e) => Err(e),
                    None => Err(AetherError::OperationFailed(owned("Generation submit failed"))),
                };
            },
        };
        let ghost tl = ts@;
        assert(attempts_made(self, request, rv, tl));
        let mut job = new_job(&request, created_at);
        job.resolved_model = Some(candidates[ci].model.duplicate());
        job.prompt = Some(prompt);
        job.options = options;
        job.provider_job_id = Some(res.provider_job_id);
        job.status = res.status;
        job.updated_at_ms = clock.now_ms();
        let ghost j = job;
        let ghost sub = tl[ci as int].submitted->0;
        assert(submitted_job(j, request, cands[ci as int].model, tl[ci as int].prompt->Ok_0, sub.0.options, res));
        let st = self.provider.status(&job);
        let now = clock.now_ms();
        let r = match after_status(job, st, now) {
            StatusStep::Failed(e) => Err(e),
            StatusStep::Done(done) => Ok(done),
            StatusStep::Download(ready) => {
                let dl = self.provider.download(&ready);
                let later = clock.now_ms();
                after_download(ready, dl, later)
            },
        };
        proof {
            assert(after_submission(self, j, r));
            assert(run_ends(self, request, rv, tl, r));
        }
        r
    }

    /// Cancels `job` with the provider and returns its answer; on success the job is
    /// cancelled, updated at `clock`'s time; on failure it is left as it was.
    pub fn cancel<C: Clock>(&self, job: &mut GenerationJob, clock: &C) -> (r: Result<(), AetherError>)
        ensures
            self.provider.cancel_answers(*old(job), r),
            r is Ok ==> *final(job) == (GenerationJob {
                status: GenerationStatus::Cancelled,
                updated_at_ms: final(job).updated_at_ms,
                ..*old(job)
            }),
            r is Err ==> *final(job) == *old(job),
    {
        let answer = self.provider.cancel(job);
        if answer.is_err() {
            return answer;
        }
        job.status = GenerationStatus::Cancelled;
        job.updated_at_ms = clock.now_ms();
        answer
    }
}

/// The runtime wired as the engine uses it: the routing provider over the mock
/// provider and the optional API bridge, and the composite prompt maker over the
/// optional LLM prompter.
pub struct DefaultGenerationRuntime<MP: GenerationProvider, BP: GenerationProvider, L: PromptMaker> {
    pub runtime: GenerationRuntime<RoutingGenerationProvider<MP, BP>, CompositePromptMaker<L>>,
}

impl<MP: GenerationProvider, BP: GenerationProvider, L: PromptMaker> DefaultGenerationRuntime<MP, BP, L> {
    /// The runtime over the mock provider, the API bridge when one is available,
    /// the LLM prompter when one could be set up, the model registry and the
    /// routing configuration when one is loaded.
    pub fn new(mock: MP, bridge: Option<BP>, llm_prompter: Option<L>, model_registry: ModelRegistry, routing: Option<RoutingConfig>) -> (r: Self)
        ensures
            r.runtime.provider.mock == mock,
            r.runtime.provider.bridge == bridge,
            r.runtime.prompt_maker.llm_prompter == llm_prompter,
            r.runtime.model_registry == model_registry,
            r.runtime.routing == routing,
    {
        DefaultGenerationRuntime {
            runtime: GenerationRuntime {
                provider: RoutingGenerationProvider { mock, bridge },
                prompt_maker: CompositePromptMaker::new(llm_prompter),
                model_registry,
                routing,
            },
        }
    }

    /// The same runtime, for callers that only mean the mock path: the routing
    /// provider still uses the bridge when it is given one.
    pub fn mock(mock: MP, bridge: Option<BP>, llm_prompter: Option<L>, model_registry: ModelRegistry, routing: Option<RoutingConfig>) -> (r: Self)
        ensures
            r.runtime.provider.mock == mock,
            r.runtime.provider.bridge == bridge,
            r.runtime.prompt_maker.llm_prompter == llm_prompter,
            r.runtime.model_registry == model_registry,
            r.runtime.routing == routing,
    {
        Self::new(mock, bridge, llm_prompter, model_registry, routing)
    }

    /// Runs `request` on the inner runtime.
    pub fn run_to_completion<C: Clock>(&self, request: GenerationRequest, clock: &C) -> (r: Result<GenerationJob, AetherError>)
        ensures
            run_outcome(&self.runtime, request, r),
    {
        self.runtime.run_to_completion(request, clock)
    }

    /// Cancels `job` on the inner runtime.
    pub fn cancel<C: Clock>(&self, job: &mut GenerationJob, clock: &C) -> (r: Result<(), AetherError>)
        ensures
            self.runtime.provider.cancel_answers(*old(job), r),
            r is Ok ==> *final(job) == (GenerationJob {
                status: GenerationStatus::Cancelled,
                updated_at_ms: final(job).updated_at_ms,
                ..*old(job)
            }),
            r is Err ==> *final(job) == *old(job),
    {
        self.runtime.cancel(job, clock)
    }
}

/// Without an LLM prompter, a job the default runtime completes with a prompt
/// carries the rule-based prompt of the request, made for the model the job was
/// resolved to.
pub proof fn law_default_runtime_prompt<MP: GenerationProvider, BP: GenerationProvider, L: PromptMaker>(
    rt: DefaultGenerationRuntime<MP, BP, L>,
    request: GenerationRequest,
    r: Result<GenerationJob, AetherError>,
)
    requires
        rt.runtime.prompt_maker.llm_prompter is None,
        run_outcome(&rt.runtime, request, r),
    ensures
        r matches Ok(job) ==> (job.prompt matches Some(p) ==> (job.resolved_model matches Some(m)
            && exists|ctx: PromptMakerContext| context_for(ctx, request.options@, m@.id)
                && #[trigger] rule_based_prompt(p, request.kind, request.user_request@, ctx))),
{
    let g = &rt.runtime;
    if r is Ok && r->Ok_0.prompt is Some {
        let route = runtime_route(g, request.kind, opt_view(request.model));
        let x = route->0;
        let ts = choose|ts: Seq<Tried>| attempts_made(g, request, x, ts) && run_ends(g, request, x, ts, r);
        let n = ts.len() - 1;
        let t = ts[n];
        let c = route_candidates(x)[n];
        assert(tried_candidate(g, request, x, c, t));
        assert(ts.last() == t);
        match t.prompt {
            Ok(p) => {
                let sub = t.submitted->0;
                let res = sub.1->Ok_0;
                let j = choose|j: GenerationJob| submitted_job(j, request, c.model, p, sub.0.options, res) && after_submission(g, j, r);
                let st = choose|st: Result<GenerationStatus, AetherError>| #[trigger] g.provider.status_answers(j, st) && match st {
                    Err(e) => r == Err::<GenerationJob, AetherError>(e),
                    Ok(s) => if s == GenerationStatus::Ready {
                        exists|dl: Result<Vec<GenerationArtifact>, AetherError>|
                            #[trigger] g.provider.download_answers(GenerationJob { status: GenerationStatus::Downloading, ..j }, dl)
                            && match dl {
                                Err(e) => r == Err::<GenerationJob, AetherError>(e),
                                Ok(a) => r matches Ok(job) && settled(job, j, GenerationStatus::Ready, a),
                            }
                    } else {
                        r matches Ok(job) && settled(job, j, s, j.artifacts)
                    },
                };
                if st->Ok_0 == GenerationStatus::Ready {
                    let dl = choose|dl: Result<Vec<GenerationArtifact>, AetherError>|
                        #[trigger] g.provider.download_answers(GenerationJob { status: GenerationStatus::Downloading, ..j }, dl)
                        && match dl {
                            Err(e) => r == Err::<GenerationJob, AetherError>(e),
                            Ok(a) => r matches Ok(job) && settled(job, j, GenerationStatus::Ready, a),
                        };
                    assert(r->Ok_0.prompt == Some(p));
                } else {
                    assert(r->Ok_0.prompt == Some(p));
                }
                assert(rule_based_prompt(p, request.kind, request.user_request@, t.context));
            },
            Err(_) => {},
        }
    }
}

/// With a provider that reports every job ready and downloads without error, a
/// job that a run completes with a prompt is ready, with the files downloaded.
pub proof fn law_run_ends_ready<P: GenerationProvider, M: PromptMaker>(
    rt: &GenerationRuntime<P, M>,
    request: GenerationRequest,
    r: Result<GenerationJob, AetherError>,
)
    requires
        forall|j: GenerationJob, st: Result<GenerationStatus, AetherError>| #[trigger] rt.provider.status_answers(j, st)
            ==> st == Ok::<GenerationStatus, AetherError>(GenerationStatus::Ready),
        forall|j: GenerationJob, dl: Result<Vec<GenerationArtifact>, AetherError>| #[trigger] rt.provider.download_answers(j, dl)
            ==> dl is Ok,
        run_outcome(rt, request, r),
    ensures
        r matches Ok(job) ==> (job.prompt is Some ==> job.status == GenerationStatus::Ready),
{
    if r is Ok && r->Ok_0.prompt is Some {
        let route = runtime_route(rt, request.kind, opt_view(request.model));
        let x = route->0;
        let ts = choose|ts: Seq<Tried>| attempts_made(rt, request, x, ts) && run_ends(rt, request, x, ts, r);
        let n = ts.len() - 1;
        let t = ts[n];
        let c = route_candidates(x)[n];
        assert(tried_candidate(rt, request, x, c, t));
        assert(ts.last() == t);
        match t.prompt {
            Ok(p) => {
                let sub = t.submitted->0;
                let res = sub.1->Ok_0;
                let j = choose|j: GenerationJob| submitted_job(j, request, c.model, p, sub.0.options, res) && after_submission(rt, j, r);
                let st = choose|st: Result<GenerationStatus, AetherError>| #[trigger] rt.provider.status_answers(j, st) && match st {
                    Err(e) => r == Err::<GenerationJob, AetherError>(e),
                    Ok(s) => if s == GenerationStatus::Ready {
                        exists|dl: Result<Vec<GenerationArtifact>, AetherError>|
                            #[trigger] rt.provider.download_answers(GenerationJob { status: GenerationStatus::Downloading, ..j }, dl)
                            && match dl {
                                Err(e) => r == Err::<GenerationJob, AetherError>(e),
                                Ok(a) => r matches Ok(job) && settled(job, j, GenerationStatus::Ready, a),
                            }
                    } else {
                        r matches Ok(job) && settled(job, j, s, j.artifacts)
                    },
                };
                assert(st == Ok::<GenerationStatus, AetherError>(GenerationStatus::Ready));
                let dl = choose|dl: Result<Vec<GenerationArtifact>, AetherError>|
                    #[trigger] rt.provider.download_answers(GenerationJob { status: GenerationStatus::Downloading, ..j }, dl)
                    && match dl {
                        Err(e) => r == Err::<GenerationJob, AetherError>(e),
                        Ok(a) => r matches Ok(job) && settled(job, j, GenerationStatus::Ready, a),
                    };
                assert(dl is Ok);
                assert(r->Ok_0.status == GenerationStatus::Ready);
            },
            Err(_) => {},
        }
    }
}

} // verus!
