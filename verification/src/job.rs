//! Generation requests and jobs: what is asked, the options that travel with it,
//! the prompt made for it and what the provider returned.

use vstd::prelude::*;
use crate::dsl::{opt_view, string_views};
use crate::generate::{copy_opt, opt_model_view, GenerationKind, ModelView, ProviderModel};
use crate::refs::Ref;
use crate::vault::{contexts_view, copy_strings, AssetRefView, PromptContext, VaultAssetRef, VaultContextView, VaultPromptContext};

verus! {

/// The state of a generation job.
#[derive(Debug, Clone, Copy, PartialEq, Eq, Structural)]
pub enum GenerationStatus {
    Queued,
    Submitted,
    Running,
    AwaitingClarification,
    Downloading,
    Ready,
    Failed,
    Cancelled,
}

/// What a generated file holds.
#[derive(Debug, Clone, Copy, PartialEq, Eq, Structural)]
pub enum GeneratedArtifactKind {
    StoryboardJson,
    DialogueJson,
    Image,
    Audio,
    Music,
    Video,
}

/// A file a provider produced for a job. `metadata` is its JSON metadata as text.
#[derive(Debug, Clone)]
pub struct GenerationArtifact {
    pub kind: GeneratedArtifactKind,
    pub path: String,
    pub asset_ref: Option<Ref>,
    pub mime_type: Option<String>,
    pub metadata: String,
}

/// The parameters given for one provider: a JSON object (its members, each value
/// as JSON text) or any other JSON value (as text).
#[derive(Debug, Clone)]
pub enum ParamsValue {
    Object(Vec<(String, String)>),
    Other(String),
}

/// Provider parameters, as character sequences.
pub enum ParamsView {
    Object(Seq<(Seq<char>, Seq<char>)>),
    Other(Seq<char>),
}

/// The views of key/value pairs of strings.
pub open spec fn pairs_view(s: Seq<(String, String)>) -> Seq<(Seq<char>, Seq<char>)> {
    s.map_values(|e: (String, String)| (e.0@, e.1@))
}

impl View for ParamsValue {
    type V = ParamsView;

    open spec fn view(&self) -> ParamsView {
        match self {
            ParamsValue::Object(m) => ParamsView::Object(pairs_view(m@)),
            ParamsValue::Other(t) => ParamsView::Other(t@),
        }
    }
}

/// The views of the per-provider parameters.
pub open spec fn params_view(s: Seq<(String, ParamsValue)>) -> Seq<(Seq<char>, ParamsView)> {
    s.map_values(|e: (String, ParamsValue)| (e.0@, e.1@))
}

/// The options of a generation request: the fields the engine reads and writes,
/// the per-provider parameters, and the other members of the options document
/// (each value as JSON text).
#[derive(Debug, Clone, Default)]
pub struct GenerationOptions {
    pub locale: Option<String>,
    pub style: Option<String>,
    pub project_summary: Option<String>,
    pub vault_context: Option<PromptContext>,
    pub input_asset_paths: Vec<String>,
    pub provider_params: Vec<(String, ParamsValue)>,
    pub prompter_clarifications: Option<String>,
    pub resolved_model: Option<ProviderModel>,
    pub bridge_handler: Option<String>,
    pub professional_prompt: Option<String>,
    pub used_fallback_model: bool,
    pub extra: Vec<(String, String)>,
}

/// A prompt context, as character sequences.
pub struct PromptContextView {
    pub project_summary: Option<Seq<char>>,
    pub style_hints: Seq<Seq<char>>,
    pub negative_constraints: Seq<Seq<char>>,
    pub vaults: Seq<VaultContextView>,
}

impl View for PromptContext {
    type V = PromptContextView;

    open spec fn view(&self) -> PromptContextView {
        PromptContextView {
            project_summary: opt_view(self.project_summary),
            style_hints: string_views(self.style_hints@),
            negative_constraints: string_views(self.negative_constraints@),
            vaults: contexts_view(self.vault_context@),
        }
    }
}

/// The view of an optional prompt context.
pub open spec fn opt_context_view(o: Option<PromptContext>) -> Option<PromptContextView> {
    match o {
        Some(c) => Some(c@),
        None => None,
    }
}

/// Options, as character sequences.
pub struct OptionsView {
    pub locale: Option<Seq<char>>,
    pub style: Option<Seq<char>>,
    pub project_summary: Option<Seq<char>>,
    pub vault_context: Option<PromptContextView>,
    pub input_asset_paths: Seq<Seq<char>>,
    pub provider_params: Seq<(Seq<char>, ParamsView)>,
    pub prompter_clarifications: Option<Seq<char>>,
    pub resolved_model: Option<ModelView>,
    pub bridge_handler: Option<Seq<char>>,
    pub professional_prompt: Option<Seq<char>>,
    pub used_fallback_model: bool,
    pub extra: Seq<(Seq<char>, Seq<char>)>,
}

impl View for GenerationOptions {
    type V = OptionsView;

    open spec fn view(&self) -> OptionsView {
        OptionsView {
            locale: opt_view(self.locale),
            style: opt_view(self.style),
            project_summary: opt_view(self.project_summary),
            vault_context: opt_context_view(self.vault_context),
            input_asset_paths: string_views(self.input_asset_paths@),
            provider_params: params_view(self.provider_params@),
            prompter_clarifications: opt_view(self.prompter_clarifications),
            resolved_model: opt_model_view(self.resolved_model),
            bridge_handler: opt_view(self.bridge_handler),
            professional_prompt: opt_view(self.professional_prompt),
            used_fallback_model: self.used_fallback_model,
            extra: pairs_view(self.extra@),
        }
    }
}

/// The technical notes of a professional prompt: the fields the engine reads, and
/// the other members (each value as JSON text).
#[derive(Debug, Clone)]
pub struct PromptTechnical {
    pub generation_kind: Option<GenerationKind>,
    pub enriched_by: Option<String>,
    pub api_options: Option<Vec<(String, ParamsValue)>>,
    pub clarifications: Option<String>,
    pub extra: Vec<(String, String)>,
}

/// A prompt made from the user's request for a given kind and model.
#[derive(Debug, Clone)]
pub struct ProfessionalPrompt {
    pub original_request: String,
    pub professional_prompt: String,
    pub negative_prompt: Option<String>,
    pub locale: Option<String>,
    pub style: Option<String>,
    pub technical: PromptTechnical,
}

/// A request to generate something.
#[derive(Debug, Clone)]
pub struct GenerationRequest {
    pub job_ref: Ref,
    pub kind: GenerationKind,
    pub user_request: String,
    pub model: Option<String>,
    pub inputs: Vec<Ref>,
    pub options: GenerationOptions,
}

/// A generation job and its state.
#[derive(Debug, Clone)]
pub struct GenerationJob {
    pub job_ref: Ref,
    pub kind: GenerationKind,
    pub status: GenerationStatus,
    pub requested_model: Option<String>,
    pub resolved_model: Option<ProviderModel>,
    pub provider_job_id: Option<String>,
    pub prompt: Option<ProfessionalPrompt>,
    pub inputs: Vec<Ref>,
    pub artifacts: Vec<GenerationArtifact>,
    pub error: Option<String>,
    pub created_at_ms: u64,
    pub updated_at_ms: u64,
    pub options: GenerationOptions,
}

// ---------------------------------------------------------------------------
// Copies
// ---------------------------------------------------------------------------

/// A copy of key/value pairs of strings.
pub fn copy_pairs(v: &Vec<(String, String)>) -> (r: Vec<(String, String)>)
    ensures
        pairs_view(r@) == pairs_view(v@),
{
    let mut r: Vec<(String, String)> = Vec::new();
    let mut i: usize = 0;
    while i < v.len()
        invariant
            i <= v.len(),
            pairs_view(r@) == pairs_view(v@).subrange(0, i as int),
        decreases v.len() - i,
    {
        let ghost before = r@;
        let e = (v[i].0.clone(), v[i].1.clone());
        assert((e.0@, e.1@) == pairs_view(v@)[i as int]);
        r.push(e);
        assert(pairs_view(r@) =~= pairs_view(before).push((e.0@, e.1@)));
        assert(pairs_view(r@) =~= pairs_view(v@).subrange(0, i + 1));
        i = i + 1;
    }
    assert(pairs_view(v@).subrange(0, i as int) =~= pairs_view(v@));
    r
}

impl ParamsValue {
    /// A copy with the same contents.
    pub fn duplicate(&self) -> (r: ParamsValue)
        ensures
            r@ == self@,
    {
        match self {
            ParamsValue::Object(m) => ParamsValue::Object(copy_pairs(m)),
            ParamsValue::Other(t) => ParamsValue::Other(t.clone()),
        }
    }
}

/// A copy of per-provider parameters.
pub fn copy_params(v: &Vec<(String, ParamsValue)>) -> (r: Vec<(String, ParamsValue)>)
    ensures
        params_view(r@) == params_view(v@),
{
    let mut r: Vec<(String, ParamsValue)> = Vec::new();
    let mut i: usize = 0;
    while i < v.len()
        invariant
            i <= v.len(),
            params_view(r@) == params_view(v@).subrange(0, i as int),
        decreases v.len() - i,
    {
        let ghost before = r@;
        let e = (v[i].0.clone(), v[i].1.duplicate());
        assert((e.0@, e.1@) == params_view(v@)[i as int]);
        r.push(e);
        assert(params_view(r@) =~= params_view(before).push((e.0@, e.1@)));
        assert(params_view(r@) =~= params_view(v@).subrange(0, i + 1));
        i = i + 1;
    }
    assert(params_view(v@).subrange(0, i as int) =~= params_view(v@));
    r
}

fn copy_refs(v: &Vec<VaultAssetRef>) -> (r: Vec<VaultAssetRef>)
    ensures
        r@.map_values(|x: VaultAssetRef| x@) == v@.map_values(|x: VaultAssetRef| x@),
{
    let mut r: Vec<VaultAssetRef> = Vec::new();
    let mut i: usize = 0;
    while i < v.len()
        invariant
            i <= v.len(),
            r@.map_values(|x: VaultAssetRef| x@) == v@.map_values(|x: VaultAssetRef| x@).subrange(0, i as int),
        decreases v.len() - i,
    {
        let a = &v[i];
        let c = VaultAssetRef {
            vault_asset_id: a.vault_asset_id.clone(),
            name: a.name.clone(),
            kind: a.kind,
            path: a.path.clone(),
            hash: a.hash.clone(),
            tags: copy_strings(&a.tags),
            metadata: a.metadata.duplicate(),
        };
        let ghost before = r@;
        assert(c@ == v@.map_values(|x: VaultAssetRef| x@)[i as int]);
        r.push(c);
        assert(r@.map_values(|x: VaultAssetRef| x@) =~= before.map_values(|x: VaultAssetRef| x@).push(c@));
        assert(r@.map_values(|x: VaultAssetRef| x@) =~= v@.map_values(|x: VaultAssetRef| x@).subrange(0, i + 1));
        i = i + 1;
    }
    assert(v@.map_values(|x: VaultAssetRef| x@).subrange(0, i as int) =~= v@.map_values(|x: VaultAssetRef| x@));
    r
}

fn copy_contexts(v: &Vec<VaultPromptContext>) -> (r: Vec<VaultPromptContext>)
    ensures
        contexts_view(r@) == contexts_view(v@),
{
    let mut r: Vec<VaultPromptContext> = Vec::new();
    let mut i: usize = 0;
    while i < v.len()
        invariant
            i <= v.len(),
            contexts_view(r@) == contexts_view(v@).subrange(0, i as int),
        decreases v.len() - i,
    {
        let c = &v[i];
        let d = VaultPromptContext {
            vault_id: c.vault_id.clone(),
            name: c.name.clone(),
            kind: c.kind,
            rules: copy_strings(&c.rules),
            prompt_snippets: copy_strings(&c.prompt_snippets),
            negative_prompts: copy_strings(&c.negative_prompts),
            reference_assets: copy_refs(&c.reference_assets),
        };
        let ghost before = r@;
        assert(d@ == contexts_view(v@)[i as int]);
        r.push(d);
        assert(contexts_view(r@) =~= contexts_view(before).push(d@));
        assert(contexts_view(r@) =~= contexts_view(v@).subrange(0, i + 1));
        i = i + 1;
    }
    assert(contexts_view(v@).subrange(0, i as int) =~= contexts_view(v@));
    r
}

impl PromptContext {
    /// A copy with the same contents.
    pub fn duplicate(&self) -> (r: PromptContext)
        ensures
            r@ == self@,
    {
        PromptContext {
            project_summary: copy_opt(&self.project_summary),
            style_hints: copy_strings(&self.style_hints),
            negative_constraints: copy_strings(&self.negative_constraints),
            vault_context: copy_contexts(&self.vault_context),
        }
    }
}

/// A copy of an optional prompt context.
pub fn copy_opt_context(o: &Option<PromptContext>) -> (r: Option<PromptContext>)
    ensures
        opt_context_view(r) == opt_context_view(*o),
{
    match o {
        Some(c) => Some(c.duplicate()),
        None => None,
    }
}

impl GenerationOptions {
    /// A copy with the same contents.
    pub fn duplicate(&self) -> (r: GenerationOptions)
        ensures
            r@ == self@,
    {
        GenerationOptions {
            locale: copy_opt(&self.locale),
            style: copy_opt(&self.style),
            project_summary: copy_opt(&self.project_summary),
            vault_context: copy_opt_context(&self.vault_context),
            input_asset_paths: copy_strings(&self.input_asset_paths),
            provider_params: copy_params(&self.provider_params),
            prompter_clarifications: copy_opt(&self.prompter_clarifications),
            resolved_model: match &self.resolved_model {
                Some(m) => Some(m.duplicate()),
                None => None,
            },
            bridge_handler: copy_opt(&self.bridge_handler),
            professional_prompt: copy_opt(&self.professional_prompt),
            used_fallback_model: self.used_fallback_model,
            extra: copy_pairs(&self.extra),
        }
    }
}

} // verus!
