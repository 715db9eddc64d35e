//! Generation kinds, provider models and the model registry: which models exist,
//! which are enabled by the provider keys present, and which one serves a request.

use vstd::prelude::*;
use crate::dsl::{opt_view, string_views};
use crate::refs::AetherError;
use crate::text::{chars_of, char_is_whitespace, decimal, first_index, is_white_space, lemma_exists_first, lemma_first_index, lemma_first_index_none, owned, push_str, str_eq, u64_decimal};

verus! {

/// What a generation job produces.
#[derive(Debug, Clone, Copy, PartialEq, Eq, Structural, Hash)]
pub enum GenerationKind {
    StoryboardScratch,
    Dialogue,
    Image,
    ImageEdit,
    Voice,
    VoiceClone,
    SceneAudio,
    Music,
    VideoText,
    VideoFrame,
    VideoIngredients,
    VideoEdit,
}

/// The name of a kind, as its `Debug` form writes it.
pub open spec fn kind_name(k: GenerationKind) -> Seq<char> {
    match k {
        GenerationKind::StoryboardScratch => "StoryboardScratch"@,
        GenerationKind::Dialogue => "Dialogue"@,
        GenerationKind::Image => "Image"@,
        GenerationKind::ImageEdit => "ImageEdit"@,
        GenerationKind::Voice => "Voice"@,
        GenerationKind::VoiceClone => "VoiceClone"@,
        GenerationKind::SceneAudio => "SceneAudio"@,
        GenerationKind::Music => "Music"@,
        GenerationKind::VideoText => "VideoText"@,
        GenerationKind::VideoFrame => "VideoFrame"@,
        GenerationKind::VideoIngredients => "VideoIngredients"@,
        GenerationKind::VideoEdit => "VideoEdit"@,
    }
}

/// The four kinds that produce video.
pub open spec fn is_video_kind(k: GenerationKind) -> bool {
    k == GenerationKind::VideoText || k == GenerationKind::VideoFrame
        || k == GenerationKind::VideoIngredients || k == GenerationKind::VideoEdit
}

impl GenerationKind {
    /// The kind's name (`StoryboardScratch`, `ImageEdit`, ...).
    pub fn name(&self) -> (s: String)
        ensures
            s@ == kind_name(*self),
    {
        match self {
            GenerationKind::StoryboardScratch => owned("StoryboardScratch"),
            GenerationKind::Dialogue => owned("Dialogue"),
            GenerationKind::Image => owned("Image"),
            GenerationKind::ImageEdit => owned("ImageEdit"),
            GenerationKind::Voice => owned("Voice"),
            GenerationKind::VoiceClone => owned("VoiceClone"),
            GenerationKind::SceneAudio => owned("SceneAudio"),
            GenerationKind::Music => owned("Music"),
            GenerationKind::VideoText => owned("VideoText"),
            GenerationKind::VideoFrame => owned("VideoFrame"),
            GenerationKind::VideoIngredients => owned("VideoIngredients"),
            GenerationKind::VideoEdit => owned("VideoEdit"),
        }
    }
}

/// The capability fields of a provider model that the engine reads.
#[derive(Debug, Clone, PartialEq, Eq)]
pub struct ModelCapabilities {
    pub api_model: Option<String>,
    pub display_name: Option<String>,
    pub bridge_handler: Option<String>,
    pub prompt_guide: Option<String>,
    pub fallback_model_id: Option<String>,
    pub alias_of: Option<String>,
}

/// The capabilities of a model, as character sequences.
pub struct CapsView {
    pub api_model: Option<Seq<char>>,
    pub display_name: Option<Seq<char>>,
    pub bridge_handler: Option<Seq<char>>,
    pub prompt_guide: Option<Seq<char>>,
    pub fallback_model_id: Option<Seq<char>>,
    pub alias_of: Option<Seq<char>>,
}

impl View for ModelCapabilities {
    type V = CapsView;

    open spec fn view(&self) -> CapsView {
        CapsView {
            api_model: opt_view(self.api_model),
            display_name: opt_view(self.display_name),
            bridge_handler: opt_view(self.bridge_handler),
            prompt_guide: opt_view(self.prompt_guide),
            fallback_model_id: opt_view(self.fallback_model_id),
            alias_of: opt_view(self.alias_of),
        }
    }
}

/// A model offered by a provider for one generation kind.
#[derive(Debug, Clone, PartialEq, Eq)]
pub struct ProviderModel {
    pub id: String,
    pub provider: String,
    pub kind: GenerationKind,
    pub enabled: bool,
    pub capabilities: ModelCapabilities,
}

/// A provider model, as character sequences.
pub struct ModelView {
    pub id: Seq<char>,
    pub provider: Seq<char>,
    pub kind: GenerationKind,
    pub enabled: bool,
    pub caps: CapsView,
}

impl View for ProviderModel {
    type V = ModelView;

    open spec fn view(&self) -> ModelView {
        ModelView {
            id: self.id@,
            provider: self.provider@,
            kind: self.kind,
            enabled: self.enabled,
            caps: self.capabilities@,
        }
    }
}

/// The views of a sequence of models.
pub open spec fn models_view(s: Seq<ProviderModel>) -> Seq<ModelView> {
    s.map_values(|m: ProviderModel| m@)
}

/// The view of an optional model.
pub open spec fn opt_model_view(o: Option<ProviderModel>) -> Option<ModelView> {
    match o {
        Some(m) => Some(m@),
        None => None,
    }
}

/// The view of an optional string slice.
pub open spec fn opt_str_view(o: Option<&str>) -> Option<Seq<char>> {
    match o {
        Some(s) => Some(s@),
        None => None,
    }
}

/// A copy of an optional string.
pub fn copy_opt(o: &Option<String>) -> (r: Option<String>)
    ensures
        opt_view(r) == opt_view(*o),
{
    match o {
        Some(s) => Some(s.clone()),
        None => None,
    }
}

/// An owned optional string from an optional slice.
pub fn opt_owned(o: Option<&str>) -> (r: Option<String>)
    ensures
        opt_view(r) == opt_str_view(o),
{
    match o {
        Some(s) => Some(owned(s)),
        None => None,
    }
}

impl ModelCapabilities {
    /// A copy with the same fields.
    pub fn duplicate(&self) -> (r: ModelCapabilities)
        ensures
            r@ == self@,
    {
        ModelCapabilities {
            api_model: copy_opt(&self.api_model),
            display_name: copy_opt(&self.display_name),
            bridge_handler: copy_opt(&self.bridge_handler),
            prompt_guide: copy_opt(&self.prompt_guide),
            fallback_model_id: copy_opt(&self.fallback_model_id),
            alias_of: copy_opt(&self.alias_of),
        }
    }
}

impl ProviderModel {
    /// A copy with the same fields.
    pub fn duplicate(&self) -> (r: ProviderModel)
        ensures
            r@ == self@,
    {
        ProviderModel {
            id: self.id.clone(),
            provider: self.provider.clone(),
            kind: self.kind,
            enabled: self.enabled,
            capabilities: self.capabilities.duplicate(),
        }
    }
}

// ---------------------------------------------------------------------------
// Provider keys
// ---------------------------------------------------------------------------

/// The environment variables that enable real providers, with the values the
/// caller read for them.
#[derive(Debug, Clone)]
pub struct ProviderEnv {
    pub vars: Vec<(String, String)>,
}

/// A value made of white space only (empty once trimmed).
pub open spec fn blank(s: Seq<char>) -> bool {
    forall|i: int| 0 <= i < s.len() ==> is_white_space(#[trigger] s[i])
}

/// The variable `key` is set to a value that is not blank.
pub open spec fn env_set(vars: Seq<(String, String)>, key: Seq<char>) -> bool {
    exists|i: int| 0 <= i < vars.len() && (#[trigger] vars[i]).0@ == key && !blank(vars[i].1@)
}

fn is_blank(s: &String) -> (r: bool)
    ensures
        r == blank(s@),
{
    let cs = chars_of(s.as_str());
    let mut i: usize = 0;
    while i < cs.len()
        invariant
            cs@ == s@,
            i <= cs.len(),
            forall|j: int| 0 <= j < i ==> is_white_space(#[trigger] cs@[j]),
        decreases cs.len() - i,
    {
        if !char_is_whitespace(cs[i]) {
            return false;
        }
        i = i + 1;
    }
    true
}

/// The variable `key` is present with a value that is not blank.
pub fn env_present(env: &ProviderEnv, key: &str) -> (r: bool)
    ensures
        r == env_set(env.vars@, key@),
{
    let mut i: usize = 0;
    while i < env.vars.len()
        invariant
            i <= env.vars.len(),
            forall|j: int|
                0 <= j < i ==> !((#[trigger] env.vars@[j]).0@ == key@ && !blank(env.vars@[j].1@)),
        decreases env.vars.len() - i,
    {
        if str_eq(env.vars[i].0.as_str(), key) && !is_blank(&env.vars[i].1) {
            return true;
        }
        i = i + 1;
    }
    false
}

/// OpenAI is enabled.
pub open spec fn openai_spec(v: Seq<(String, String)>) -> bool {
    env_set(v, "AETHER_OPENAI_API_KEY"@) || env_set(v, "OPENAI_API_KEY"@)
}

/// Google is enabled.
pub open spec fn google_spec(v: Seq<(String, String)>) -> bool {
    env_set(v, "AETHER_GOOGLE_API_KEY"@) || env_set(v, "GEMINI_API_KEY"@) || env_set(v, "GOOGLE_API_KEY"@)
}

/// ByteDance is enabled.
pub open spec fn bytedance_spec(v: Seq<(String, String)>) -> bool {
    env_set(v, "AETHER_BYTEDANCE_API_KEY"@) || env_set(v, "SEEDANCE_API_KEY"@) || env_set(v, "VOLCENGINE_API_KEY"@)
}

/// Kuaishou is enabled.
pub open spec fn kuaishou_spec(v: Seq<(String, String)>) -> bool {
    env_set(v, "AETHER_KUAISHOU_API_KEY"@) || env_set(v, "KLING_API_KEY"@)
}

/// ElevenLabs is enabled.
pub open spec fn elevenlabs_spec(v: Seq<(String, String)>) -> bool {
    env_set(v, "ELEVENLABS_API_KEY"@)
}

/// MiniMax is enabled.
pub open spec fn minimax_spec(v: Seq<(String, String)>) -> bool {
    env_set(v, "FAL_API_KEY"@) || env_set(v, "MINIMAX_API_KEY"@)
}

/// An OpenAI key is present.
pub fn openai_enabled(env: &ProviderEnv) -> (r: bool)
    ensures
        r == openai_spec(env.vars@),
{
    env_present(env, "AETHER_OPENAI_API_KEY") || env_present(env, "OPENAI_API_KEY")
}

/// A Google key is present.
pub fn google_enabled(env: &ProviderEnv) -> (r: bool)
    ensures
        r == google_spec(env.vars@),
{
    env_present(env, "AETHER_GOOGLE_API_KEY") || env_present(env, "GEMINI_API_KEY")
        || env_present(env, "GOOGLE_API_KEY")
}

/// A ByteDance key is present.
pub fn bytedance_enabled(env: &ProviderEnv) -> (r: bool)
    ensures
        r == bytedance_spec(env.vars@),
{
    env_present(env, "AETHER_BYTEDANCE_API_KEY") || env_present(env, "SEEDANCE_API_KEY")
        || env_present(env, "VOLCENGINE_API_KEY")
}

/// A Kuaishou key is present.
pub fn kuaishou_enabled(env: &ProviderEnv) -> (r: bool)
    ensures
        r == kuaishou_spec(env.vars@),
{
    env_present(env, "AETHER_KUAISHOU_API_KEY") || env_present(env, "KLING_API_KEY")
}

/// An ElevenLabs key is present.
pub fn elevenlabs_enabled(env: &ProviderEnv) -> (r: bool)
    ensures
        r == elevenlabs_spec(env.vars@),
{
    env_present(env, "ELEVENLABS_API_KEY")
}

/// A MiniMax key is present.
pub fn minimax_enabled(env: &ProviderEnv) -> (r: bool)
    ensures
        r == minimax_spec(env.vars@),
{
    env_present(env, "FAL_API_KEY") || env_present(env, "MINIMAX_API_KEY")
}

/// Which real providers are enabled.
#[derive(Debug, Clone, Copy, PartialEq, Eq, Structural)]
pub struct ProviderKeys {
    pub openai: bool,
    pub google: bool,
    pub bytedance: bool,
    pub kuaishou: bool,
    pub elevenlabs: bool,
    pub minimax: bool,
}

/// The providers that an environment enables.
pub open spec fn keys_of(v: Seq<(String, String)>) -> ProviderKeys {
    ProviderKeys {
        openai: openai_spec(v),
        google: google_spec(v),
        bytedance: bytedance_spec(v),
        kuaishou: kuaishou_spec(v),
        elevenlabs: elevenlabs_spec(v),
        minimax: minimax_spec(v),
    }
}

impl ProviderKeys {
    /// The providers enabled by the variables of `env`.
    pub fn from_env(env: &ProviderEnv) -> (k: ProviderKeys)
        ensures
            k == keys_of(env.vars@),
    {
        ProviderKeys {
            openai: openai_enabled(env),
            google: google_enabled(env),
            bytedance: bytedance_enabled(env),
            kuaishou: kuaishou_enabled(env),
            elevenlabs: elevenlabs_enabled(env),
            minimax: minimax_enabled(env),
        }
    }
}


// ---------------------------------------------------------------------------
// The builtin model table
// ---------------------------------------------------------------------------

/// No capability field set.
pub open spec fn no_caps() -> CapsView {
    CapsView {
        api_model: None,
        display_name: None,
        bridge_handler: None,
        prompt_guide: None,
        fallback_model_id: None,
        alias_of: None,
    }
}

/// Capabilities of a real provider model.
pub open spec fn caps_v(
    api: Seq<char>,
    display: Option<Seq<char>>,
    bridge: Seq<char>,
    guide: Seq<char>,
    fallback: Option<Seq<char>>,
    alias: Option<Seq<char>>,
) -> CapsView {
    CapsView {
        api_model: Some(api),
        display_name: display,
        bridge_handler: Some(bridge),
        prompt_guide: Some(guide),
        fallback_model_id: fallback,
        alias_of: alias,
    }
}

/// A model view.
pub open spec fn mv(id: Seq<char>, provider: Seq<char>, kind: GenerationKind, enabled: bool, caps: CapsView) -> ModelView {
    ModelView { id, provider, kind, enabled, caps }
}

/// The mock models, one per kind, all enabled.
pub open spec fn mock_models() -> Seq<ModelView> {
    seq![
        mv("mock/storyboard"@, "mock"@, GenerationKind::StoryboardScratch, true, no_caps()),
        mv("mock/dialogue"@, "mock"@, GenerationKind::Dialogue, true, no_caps()),
        mv("mock/image"@, "mock"@, GenerationKind::Image, true, no_caps()),
        mv("mock/image-edit"@, "mock"@, GenerationKind::ImageEdit, true, no_caps()),
        mv("mock/voice"@, "mock"@, GenerationKind::Voice, true, no_caps()),
        mv("mock/voice-clone"@, "mock"@, GenerationKind::VoiceClone, true, no_caps()),
        mv("mock/scene-audio"@, "mock"@, GenerationKind::SceneAudio, true, no_caps()),
        mv("mock/music"@, "mock"@, GenerationKind::Music, true, no_caps()),
        mv("mock/video-text"@, "mock"@, GenerationKind::VideoText, true, no_caps()),
        mv("mock/video-frame"@, "mock"@, GenerationKind::VideoFrame, true, no_caps()),
        mv("mock/video-ingredients"@, "mock"@, GenerationKind::VideoIngredients, true, no_caps()),
        mv("mock/video-edit"@, "mock"@, GenerationKind::VideoEdit, true, no_caps()),
    ]
}

/// Placeholders of real models, always disabled.
pub open spec fn placeholder_models() -> Seq<ModelView> {
    seq![
        mv("google/gemini-flash-tts"@, "google"@, GenerationKind::Voice, false, no_caps()),
        mv("google/lyria"@, "google"@, GenerationKind::Music, false, no_caps()),
        mv("google/veo-3"@, "google"@, GenerationKind::VideoText, false, no_caps()),
        mv("google/veo-3.1"@, "google"@, GenerationKind::VideoText, false, no_caps()),
        mv("google/imagen"@, "google"@, GenerationKind::Image, false, no_caps()),
    ]
}

pub open spec fn seedance_caps() -> CapsView {
    caps_v("seedance-2.0"@, Some("Seedance 2.0"@), "seedance-video"@, "bytedance/seedance-2.0.json"@, None, None)
}

pub open spec fn kling_caps() -> CapsView {
    caps_v("kling-3.0"@, Some("Kling 3.0"@), "kling-video"@, "kuaishou/kling-3.0.json"@, None, None)
}

pub open spec fn eleven_caps() -> CapsView {
    caps_v("eleven_v3"@, Some("ElevenLabs Eleven v3"@), "elevenlabs-tts"@, "elevenlabs/eleven-v3.json"@, None, None)
}

/// Video models: Seedance 2.0 for four kinds, Kling 3.0 for three.
pub open spec fn video_models(k: ProviderKeys) -> Seq<ModelView> {
    seq![
        mv("bytedance/seedance-2.0"@, "bytedance"@, GenerationKind::VideoText, k.bytedance, seedance_caps()),
        mv("bytedance/seedance-2.0"@, "bytedance"@, GenerationKind::VideoFrame, k.bytedance, seedance_caps()),
        mv("bytedance/seedance-2.0"@, "bytedance"@, GenerationKind::VideoIngredients, k.bytedance, seedance_caps()),
        mv("bytedance/seedance-2.0"@, "bytedance"@, GenerationKind::VideoEdit, k.bytedance, seedance_caps()),
        mv("kuaishou/kling-3.0"@, "kuaishou"@, GenerationKind::VideoText, k.kuaishou, kling_caps()),
        mv("kuaishou/kling-3.0"@, "kuaishou"@, GenerationKind::VideoFrame, k.kuaishou, kling_caps()),
        mv("kuaishou/kling-3.0"@, "kuaishou"@, GenerationKind::VideoIngredients, k.kuaishou, kling_caps()),
    ]
}

/// Voice and music models.
pub open spec fn audio_models(k: ProviderKeys) -> Seq<ModelView> {
    seq![
        mv("elevenlabs/eleven-v3"@, "elevenlabs"@, GenerationKind::Voice, k.elevenlabs, eleven_caps()),
        mv("elevenlabs/eleven-v3"@, "elevenlabs"@, GenerationKind::VoiceClone, k.elevenlabs, eleven_caps()),
        mv("google/gemini-3.1-flash-tts"@, "google"@, GenerationKind::Voice, k.google,
            caps_v("gemini-3.1-flash-tts"@, Some("Google Gemini 3.1 Flash TTS"@), "gemini-tts"@,
                "google/gemini-3.1-flash-tts.json"@, None, None)),
        mv("openai/tts-1-hd"@, "openai"@, GenerationKind::Voice, k.openai,
            caps_v("tts-1-hd"@, Some("OpenAI TTS-1 HD"@), "openai-tts"@, "openai/tts-1-hd.json"@, None, None)),
        mv("minimax/music-2.5"@, "minimax"@, GenerationKind::Music, k.minimax,
            caps_v("minimax-music-v2"@, Some("MiniMax Music 2.5"@), "minimax-music"@, "minimax/music-2.5.json"@, None, None)),
    ]
}

/// Image-edit models: GPT Image 2 (falling back to the Gemini image preview), the
/// Gemini image preview, and its alias Nano Banana 2.
pub open spec fn image_edit_models(k: ProviderKeys) -> Seq<ModelView> {
    seq![
        mv("openai/gpt-image-2"@, "openai"@, GenerationKind::ImageEdit, k.openai,
            caps_v("gpt-image-2"@, None, "openai-image-edit"@, "openai/gpt-image-2.json"@,
                Some("google/gemini-3.1-flash-image-preview"@), None)),
        mv("google/gemini-3.1-flash-image-preview"@, "google"@, GenerationKind::ImageEdit, k.google,
            caps_v("gemini-3.1-flash-image-preview"@, Some("Nano Banana 2"@), "nano-banana-image-edit"@,
                "google/gemini-3.1-flash-image-preview.json"@, None, None)),
        mv("google/nano-banana-2"@, "google"@, GenerationKind::ImageEdit, k.google,
            caps_v("gemini-3.1-flash-image-preview"@, Some("Nano Banana 2"@), "nano-banana-image-edit"@,
                "google/nano-banana-2.json"@, None, Some("google/gemini-3.1-flash-image-preview"@))),
    ]
}

/// The builtin table, in registration order.
pub open spec fn builtin_models(k: ProviderKeys) -> Seq<ModelView> {
    mock_models() + placeholder_models() + video_models(k) + audio_models(k) + image_edit_models(k)
}

fn no_capabilities() -> (c: ModelCapabilities)
    ensures
        c@ == no_caps(),
{
    ModelCapabilities {
        api_model: None,
        display_name: None,
        bridge_handler: None,
        prompt_guide: None,
        fallback_model_id: None,
        alias_of: None,
    }
}

fn capabilities(
    api: &str,
    display: Option<&str>,
    bridge: &str,
    guide: &str,
    fallback: Option<&str>,
    alias: Option<&str>,
) -> (c: ModelCapabilities)
    ensures
        c@ == caps_v(api@, opt_str_view(display), bridge@, guide@, opt_str_view(fallback), opt_str_view(alias)),
{
    ModelCapabilities {
        api_model: Some(owned(api)),
        display_name: opt_owned(display),
        bridge_handler: Some(owned(bridge)),
        prompt_guide: Some(owned(guide)),
        fallback_model_id: opt_owned(fallback),
        alias_of: opt_owned(alias),
    }
}

fn push_model(v: &mut Vec<ProviderModel>, id: &str, provider: &str, kind: GenerationKind, enabled: bool, caps: ModelCapabilities)
    ensures
        models_view(final(v)@) == models_view(old(v)@).push(mv(id@, provider@, kind, enabled, caps@)),
{
    let m = ProviderModel { id: owned(id), provider: owned(provider), kind, enabled, capabilities: caps };
    v.push(m);
    assert(models_view(v@) =~= models_view(old(v)@).push(mv(id@, provider@, kind, enabled, caps@)));
}

fn push_mocks(v: &mut Vec<ProviderModel>)
    ensures
        models_view(final(v)@) == models_view(old(v)@) + mock_models(),
{
    let ghost start = models_view(v@);
    push_model(v, "mock/storyboard", "mock", GenerationKind::StoryboardScratch, true, no_capabilities());
    push_model(v, "mock/dialogue", "mock", GenerationKind::Dialogue, true, no_capabilities());
    push_model(v, "mock/image", "mock", GenerationKind::Image, true, no_capabilities());
    push_model(v, "mock/image-edit", "mock", GenerationKind::ImageEdit, true, no_capabilities());
    push_model(v, "mock/voice", "mock", GenerationKind::Voice, true, no_capabilities());
    push_model(v, "mock/voice-clone", "mock", GenerationKind::VoiceClone, true, no_capabilities());
    push_model(v, "mock/scene-audio", "mock", GenerationKind::SceneAudio, true, no_capabilities());
    push_model(v, "mock/music", "mock", GenerationKind::Music, true, no_capabilities());
    push_model(v, "mock/video-text", "mock", GenerationKind::VideoText, true, no_capabilities());
    push_model(v, "mock/video-frame", "mock", GenerationKind::VideoFrame, true, no_capabilities());
    push_model(v, "mock/video-ingredients", "mock", GenerationKind::VideoIngredients, true, no_capabilities());
    push_model(v, "mock/video-edit", "mock", GenerationKind::VideoEdit, true, no_capabilities());
    assert(models_view(v@) =~= start + mock_models());
}

fn push_placeholders(v: &mut Vec<ProviderModel>)
    ensures
        models_view(final(v)@) == models_view(old(v)@) + placeholder_models(),
{
    let ghost start = models_view(v@);
    push_model(v, "google/gemini-flash-tts", "google", GenerationKind::Voice, false, no_capabilities());
    push_model(v, "google/lyria", "google", GenerationKind::Music, false, no_capabilities());
    push_model(v, "google/veo-3", "google", GenerationKind::VideoText, false, no_capabilities());
    push_model(v, "google/veo-3.1", "google", GenerationKind::VideoText, false, no_capabilities());
    push_model(v, "google/imagen", "google", GenerationKind::Image, false, no_capabilities());
    assert(models_view(v@) =~= start + placeholder_models());
}

fn push_video_models(v: &mut Vec<ProviderModel>, k: ProviderKeys)
    ensures
        models_view(final(v)@) == models_view(old(v)@) + video_models(k),
{
    let ghost start = models_view(v@);
    let seedance = "bytedance/seedance-2.0";
    push_model(v, seedance, "bytedance", GenerationKind::VideoText, k.bytedance,
        capabilities("seedance-2.0", Some("Seedance 2.0"), "seedance-video", "bytedance/seedance-2.0.json", None, None));
    push_model(v, seedance, "bytedance", GenerationKind::VideoFrame, k.bytedance,
        capabilities("seedance-2.0", Some("Seedance 2.0"), "seedance-video", "bytedance/seedance-2.0.json", None, None));
    push_model(v, seedance, "bytedance", GenerationKind::VideoIngredients, k.bytedance,
        capabilities("seedance-2.0", Some("Seedance 2.0"), "seedance-video", "bytedance/seedance-2.0.json", None, None));
    push_model(v, seedance, "bytedance", GenerationKind::VideoEdit, k.bytedance,
        capabilities("seedance-2.0", Some("Seedance 2.0"), "seedance-video", "bytedance/seedance-2.0.json", None, None));
    let kling = "kuaishou/kling-3.0";
    push_model(v, kling, "kuaishou", GenerationKind::VideoText, k.kuaishou,
        capabilities("kling-3.0", Some("Kling 3.0"), "kling-video", "kuaishou/kling-3.0.json", None, None));
    push_model(v, kling, "kuaishou", GenerationKind::VideoFrame, k.kuaishou,
        capabilities("kling-3.0", Some("Kling 3.0"), "kling-video", "kuaishou/kling-3.0.json", None, None));
    push_model(v, kling, "kuaishou", GenerationKind::VideoIngredients, k.kuaishou,
        capabilities("kling-3.0", Some("Kling 3.0"), "kling-video", "kuaishou/kling-3.0.json", None, None));
    assert(models_view(v@) =~= start + video_models(k));
}

fn push_audio_models(v: &mut Vec<ProviderModel>, k: ProviderKeys)
    ensures
        models_view(final(v)@) == models_view(old(v)@) + audio_models(k),
{
    let ghost start = models_view(v@);
    push_model(v, "elevenlabs/eleven-v3", "elevenlabs", GenerationKind::Voice, k.elevenlabs,
        capabilities("eleven_v3", Some("ElevenLabs Eleven v3"), "elevenlabs-tts", "elevenlabs/eleven-v3.json", None, None));
    push_model(v, "elevenlabs/eleven-v3", "elevenlabs", GenerationKind::VoiceClone, k.elevenlabs,
        capabilities("eleven_v3", Some("ElevenLabs Eleven v3"), "elevenlabs-tts", "elevenlabs/eleven-v3.json", None, None));
    push_model(v, "google/gemini-3.1-flash-tts", "google", GenerationKind::Voice, k.google,
        capabilities("gemini-3.1-flash-tts", Some("Google Gemini 3.1 Flash TTS"), "gemini-tts",
            "google/gemini-3.1-flash-tts.json", None, None));
    push_model(v, "openai/tts-1-hd", "openai", GenerationKind::Voice, k.openai,
        capabilities("tts-1-hd", Some("OpenAI TTS-1 HD"), "openai-tts", "openai/tts-1-hd.json", None, None));
    push_model(v, "minimax/music-2.5", "minimax", GenerationKind::Music, k.minimax,
        capabilities("minimax-music-v2", Some("MiniMax Music 2.5"), "minimax-music", "minimax/music-2.5.json", None, None));
    assert(models_view(v@) =~= start + audio_models(k));
}

fn push_image_edit_models(v: &mut Vec<ProviderModel>, k: ProviderKeys)
    ensures
        models_view(final(v)@) == models_view(old(v)@) + image_edit_models(k),
{
    let ghost start = models_view(v@);
    push_model(v, "openai/gpt-image-2", "openai", GenerationKind::ImageEdit, k.openai,
        capabilities("gpt-image-2", None, "openai-image-edit", "openai/gpt-image-2.json",
            Some("google/gemini-3.1-flash-image-preview"), None));
    push_model(v, "google/gemini-3.1-flash-image-preview", "google", GenerationKind::ImageEdit, k.google,
        capabilities("gemini-3.1-flash-image-preview", Some("Nano Banana 2"), "nano-banana-image-edit",
            "google/gemini-3.1-flash-image-preview.json", None, None));
    push_model(v, "google/nano-banana-2", "google", GenerationKind::ImageEdit, k.google,
        capabilities("gemini-3.1-flash-image-preview", Some("Nano Banana 2"), "nano-banana-image-edit",
            "google/nano-banana-2.json", None, Some("google/gemini-3.1-flash-image-preview")));
    assert(models_view(v@) =~= start + image_edit_models(k));
}

// ---------------------------------------------------------------------------
// The registry
// ---------------------------------------------------------------------------

/// The models known to the engine, and the providers enabled when it was built.
#[derive(Debug, Clone)]
pub struct ModelRegistry {
    pub models: Vec<ProviderModel>,
    pub keys: ProviderKeys,
}

/// The default model id of a kind, when no model is requested.
pub open spec fn default_id(k: ProviderKeys, kind: GenerationKind) -> Option<Seq<char>> {
    if kind == GenerationKind::ImageEdit && k.openai {
        Some("openai/gpt-image-2"@)
    } else if kind == GenerationKind::ImageEdit && k.google {
        Some("google/gemini-3.1-flash-image-preview"@)
    } else if is_video_kind(kind) {
        if k.kuaishou {
            Some("kuaishou/kling-3.0"@)
        } else if k.bytedance {
            Some("bytedance/seedance-2.0"@)
        } else {
            None
        }
    } else {
        None
    }
}

/// An enabled model of `kind`, with id `id` when one is given.
pub open spec fn fits(m: ModelView, kind: GenerationKind, id: Option<Seq<char>>) -> bool {
    m.kind == kind && m.enabled && match id {
        Some(x) => m.id == x,
        None => true,
    }
}

/// The first model of `s` that fits, if any.
pub open spec fn first_fit(s: Seq<ModelView>, kind: GenerationKind, id: Option<Seq<char>>) -> Option<ModelView> {
    if exists|i: int| 0 <= i < s.len() && #[trigger] fits(s[i], kind, id) {
        let i = choose|i: int|
            0 <= i < s.len() && #[trigger] fits(s[i], kind, id) && forall|j: int| 0 <= j < i ==> !#[trigger] fits(s[j], kind, id);
        Some(s[i])
    } else {
        None
    }
}

/// The model chosen for `kind`: the requested one if it is enabled for the kind,
/// else the kind's default model if enabled, else the first enabled model of the kind.
pub open spec fn find_spec(s: Seq<ModelView>, k: ProviderKeys, kind: GenerationKind, requested: Option<Seq<char>>) -> Option<ModelView> {
    let by_request = match requested {
        Some(r) => first_fit(s, kind, Some(r)),
        None => None,
    };
    if by_request is Some {
        by_request
    } else {
        let by_default = match default_id(k, kind) {
            Some(d) => first_fit(s, kind, Some(d)),
            None => None,
        };
        if by_default is Some {
            by_default
        } else {
            first_fit(s, kind, None)
        }
    }
}

fn first_fit_exec(models: &Vec<ProviderModel>, kind: GenerationKind, id: Option<&str>) -> (r: Option<ProviderModel>)
    ensures
        opt_model_view(r) == first_fit(models_view(models@), kind, opt_str_view(id)),
{
    let ghost s = models_view(models@);
    let ghost idv = opt_str_view(id);
    let mut i: usize = 0;
    while i < models.len()
        invariant
            i <= models.len(),
            s == models_view(models@),
            idv == opt_str_view(id),
            forall|j: int| 0 <= j < i ==> !#[trigger] fits(s[j], kind, idv),
        decreases models.len() - i,
    {
        let m = &models[i];
        let id_ok = match id {
            Some(x) => str_eq(m.id.as_str(), x),
            None => true,
        };
        if m.kind == kind && m.enabled && id_ok {
            proof {
                assert(s[i as int] == m@);
                assert(fits(s[i as int], kind, idv));
                let c = choose|c: int|
                    0 <= c < s.len() && #[trigger] fits(s[c], kind, idv) && forall|j: int| 0 <= j < c ==> !#[trigger] fits(s[j], kind, idv);
                assert(0 <= c < s.len() && fits(s[c], kind, idv) && forall|j: int| 0 <= j < c ==> !fits(s[j], kind, idv));
                if c < i {
                    assert(!fits(s[c], kind, idv));
                } else if c > i {
                    assert(!fits(s[i as int], kind, idv));
                }
                assert(c == i);
            }
            return Some(m.duplicate());
        }
        proof {
            assert(s[i as int] == m@);
        }
        i = i + 1;
    }
    None
}

impl ModelRegistry {
    /// The registry of builtin models: the mocks (enabled), placeholders of real
    /// models (disabled), and the real models, each enabled when its provider's key
    /// is present in `env`.
    pub fn with_builtin_placeholders(env: &ProviderEnv) -> (r: ModelRegistry)
        ensures
            r.keys == keys_of(env.vars@),
            models_view(r.models@) == builtin_models(r.keys),
    {
        let keys = ProviderKeys::from_env(env);
        let mut models: Vec<ProviderModel> = Vec::new();
        assert(models_view(models@) =~= Seq::<ModelView>::empty());
        push_mocks(&mut models);
        push_placeholders(&mut models);
        push_video_models(&mut models, keys);
        push_audio_models(&mut models, keys);
        push_image_edit_models(&mut models, keys);
        assert(models_view(models@) =~= builtin_models(keys));
        ModelRegistry { models, keys }
    }

    /// The default model id for a kind when the user does not pass `--model`.
    pub fn default_model_id(&self, kind: GenerationKind) -> (r: Option<String>)
        ensures
            opt_view(r) == default_id(self.keys, kind),
    {
        match kind {
            GenerationKind::ImageEdit if self.keys.openai => Some(owned("openai/gpt-image-2")),
            GenerationKind::ImageEdit if self.keys.google => Some(owned("google/gemini-3.1-flash-image-preview")),
            GenerationKind::VideoText | GenerationKind::VideoFrame | GenerationKind::VideoIngredients
            | GenerationKind::VideoEdit => {
                if self.keys.kuaishou {
                    Some(owned("kuaishou/kling-3.0"))
                } else if self.keys.bytedance {
                    Some(owned("bytedance/seedance-2.0"))
                } else {
                    None
                }
            },
            _ => None,
        }
    }

    /// An enabled model for `kind`: the requested one if enabled for the kind, else
    /// the kind's default, else the first enabled model of the kind in table order.
    pub fn find_model(&self, kind: GenerationKind, requested_model: Option<&str>) -> (r: Option<ProviderModel>)
        ensures
            opt_model_view(r) == find_spec(models_view(self.models@), self.keys, kind, opt_str_view(requested_model)),
    {
        if let Some(req_id) = requested_model {
            let m = first_fit_exec(&self.models, kind, Some(req_id));
            if m.is_some() {
                return m;
            }
        }
        let default_id = self.default_model_id(kind);
        if let Some(d) = &default_id {
            let m = first_fit_exec(&self.models, kind, Some(d.as_str()));
            if m.is_some() {
                return m;
            }
        }
        first_fit_exec(&self.models, kind, None)
    }

    /// All models of `kind`, enabled or not, in table order.
    pub fn list_by_kind(&self, kind: GenerationKind) -> (r: Vec<ProviderModel>)
        ensures
            models_view(r@) == models_view(self.models@).filter(|m: ModelView| m.kind == kind),
    {
        let ghost s = models_view(self.models@);
        let mut out: Vec<ProviderModel> = Vec::new();
        let mut i: usize = 0;
        assert(s.subrange(0, 0) =~= Seq::<ModelView>::empty());
        assert(models_view(out@) =~= Seq::<ModelView>::empty());
        while i < self.models.len()
            invariant
                i <= self.models.len(),
                s == models_view(self.models@),
                models_view(out@) == s.subrange(0, i as int).filter(|m: ModelView| m.kind == kind),
            decreases self.models.len() - i,
        {
            let m = &self.models[i];
            proof {
                assert(s.subrange(0, i + 1) =~= s.subrange(0, i as int).push(s[i as int]));
                s.subrange(0, i as int).lemma_filter_push(s[i as int], |m: ModelView| m.kind == kind);
            }
            if m.kind == kind {
                let c = m.duplicate();
                let ghost before = out@;
                out.push(c);
                assert(models_view(out@) =~= models_view(before).push(c@));
            }
            i = i + 1;
        }
        assert(s.subrange(0, i as int) =~= s);
        out
    }
}


// ---------------------------------------------------------------------------
// Routes: a primary model and an optional fallback, each with its bridge handler
// ---------------------------------------------------------------------------

/// A resolved model and the bridge handler that serves it.
#[derive(Debug, Clone)]
pub struct RoutedModel {
    pub model: ProviderModel,
    pub bridge_handler: String,
}

/// A routed model, as character sequences.
pub struct RoutedView {
    pub model: ModelView,
    pub handler: Seq<char>,
}

impl View for RoutedModel {
    type V = RoutedView;

    open spec fn view(&self) -> RoutedView {
        RoutedView { model: self.model@, handler: self.bridge_handler@ }
    }
}

/// The view of an optional routed model.
pub open spec fn opt_routed_view(o: Option<RoutedModel>) -> Option<RoutedView> {
    match o {
        Some(m) => Some(m@),
        None => None,
    }
}

/// Primary and fallback model route for a generation kind.
#[derive(Debug, Clone)]
pub struct ModelRoute {
    pub primary: RoutedModel,
    pub fallback: Option<RoutedModel>,
}

/// A route, as character sequences.
pub struct RouteView {
    pub primary: RoutedView,
    pub fallback: Option<RoutedView>,
}

impl View for ModelRoute {
    type V = RouteView;

    open spec fn view(&self) -> RouteView {
        RouteView { primary: self.primary@, fallback: opt_routed_view(self.fallback) }
    }
}

/// The view of an optional route.
pub open spec fn opt_route_view(o: Option<ModelRoute>) -> Option<RouteView> {
    match o {
        Some(r) => Some(r@),
        None => None,
    }
}

impl ModelRoute {
    /// The models to try, in order: the primary, then the fallback if there is one.
    pub fn candidates(&self) -> (r: Vec<&RoutedModel>)
        ensures
            r@.len() == (if self.fallback is Some { 2int } else { 1int }),
            r@[0] == &self.primary,
            self.fallback is Some ==> r@[1] == &self.fallback->0,
    {
        let mut out: Vec<&RoutedModel> = Vec::new();
        out.push(&self.primary);
        if let Some(fb) = &self.fallback {
            out.push(fb);
        }
        out
    }
}

/// The model's own bridge handler, or `dflt` when it declares none.
pub open spec fn handler_or(m: ModelView, dflt: Seq<char>) -> Seq<char> {
    match m.caps.bridge_handler {
        Some(h) => h,
        None => dflt,
    }
}

fn handler_of(m: &ProviderModel, dflt: &str) -> (h: String)
    ensures
        h@ == handler_or(m@, dflt@),
{
    match &m.capabilities.bridge_handler {
        Some(h) => h.clone(),
        None => owned(dflt),
    }
}

/// The route read from the registry alone: the model found for the request, and the
/// model named by its `fallback_model_id` capability, if that one is found too.
pub open spec fn legacy_route(s: Seq<ModelView>, k: ProviderKeys, kind: GenerationKind, req: Option<Seq<char>>) -> Option<RouteView> {
    match find_spec(s, k, kind, req) {
        None => None,
        Some(p) => Some(RouteView {
            primary: RoutedView { model: p, handler: handler_or(p, "openai-image-edit"@) },
            fallback: match p.caps.fallback_model_id {
                None => None,
                Some(fid) => match find_spec(s, k, kind, Some(fid)) {
                    None => None,
                    Some(f) => Some(RoutedView { model: f, handler: handler_or(f, "nano-banana-image-edit"@) }),
                },
            },
        }),
    }
}

impl ModelRegistry {
    /// The route built from the registry alone (no routing configuration).
    pub fn resolve_route_legacy(&self, kind: GenerationKind, requested_model: Option<&str>) -> (r: Option<ModelRoute>)
        ensures
            opt_route_view(r) == legacy_route(models_view(self.models@), self.keys, kind, opt_str_view(requested_model)),
    {
        let primary = match self.find_model(kind, requested_model) {
            Some(p) => p,
            None => return None,
        };
        let bridge_handler = handler_of(&primary, "openai-image-edit");
        let fallback = match &primary.capabilities.fallback_model_id {
            Some(fid) => match self.find_model(kind, Some(fid.as_str())) {
                Some(m) => {
                    let h = handler_of(&m, "nano-banana-image-edit");
                    Some(RoutedModel { model: m, bridge_handler: h })
                },
                None => None,
            },
            None => None,
        };
        Some(ModelRoute { primary: RoutedModel { model: primary, bridge_handler }, fallback })
    }
}

// ---------------------------------------------------------------------------
// The declarative routing configuration
// ---------------------------------------------------------------------------

/// A model named by the routing configuration, with its bridge handler.
#[derive(Debug, Clone)]
pub struct RoutedModelRef {
    pub model_id: String,
    pub bridge_handler: String,
}

/// A model reference, as character sequences.
pub struct RefView {
    pub model_id: Seq<char>,
    pub handler: Seq<char>,
}

impl View for RoutedModelRef {
    type V = RefView;

    open spec fn view(&self) -> RefView {
        RefView { model_id: self.model_id@, handler: self.bridge_handler@ }
    }
}

/// One route of the configuration: a business function, the kinds it serves,
/// and its primary and optional fallback model.
#[derive(Debug, Clone)]
pub struct RouteEntry {
    pub function: String,
    pub kinds: Vec<String>,
    pub primary: RoutedModelRef,
    pub fallback: Option<RoutedModelRef>,
}

/// A route entry, as character sequences.
pub struct EntryView {
    pub function: Seq<char>,
    pub kinds: Seq<Seq<char>>,
    pub primary: RefView,
    pub fallback: Option<RefView>,
}

impl View for RouteEntry {
    type V = EntryView;

    open spec fn view(&self) -> EntryView {
        EntryView {
            function: self.function@,
            kinds: string_views(self.kinds@),
            primary: self.primary@,
            fallback: match self.fallback {
                Some(f) => Some(f@),
                None => None,
            },
        }
    }
}

/// The routing configuration (`routing.v1.json`).
#[derive(Debug, Clone)]
pub struct RoutingConfig {
    pub schema_version: u32,
    pub routes: Vec<RouteEntry>,
}

/// The views of a sequence of route entries.
pub open spec fn entries_view(s: Seq<RouteEntry>) -> Seq<EntryView> {
    s.map_values(|e: RouteEntry| e@)
}

/// The entry lists the kind named `name`.
pub open spec fn has_kind(e: EntryView, name: Seq<char>) -> bool {
    e.kinds.contains(name)
}

/// The first entry that lists the kind named `name`.
pub open spec fn entry_for(entries: Seq<EntryView>, name: Seq<char>) -> Option<EntryView> {
    match first_index(entries, |e: EntryView| has_kind(e, name)) {
        Some(i) => Some(entries[i]),
        None => None,
    }
}

/// The model that a configured reference resolves to in the registry, with the
/// reference's handler.
pub open spec fn routed(s: Seq<ModelView>, k: ProviderKeys, kind: GenerationKind, r: RefView) -> Option<RoutedView> {
    match find_spec(s, k, kind, Some(r.model_id)) {
        Some(m) => Some(RoutedView { model: m, handler: r.handler }),
        None => None,
    }
}

/// The fallback that an entry resolves to.
pub open spec fn entry_fallback(s: Seq<ModelView>, k: ProviderKeys, kind: GenerationKind, e: Option<EntryView>) -> Option<RoutedView> {
    match e {
        Some(en) => match en.fallback {
            Some(f) => routed(s, k, kind, f),
            None => None,
        },
        None => None,
    }
}

/// The handler for a requested model that the registry found: the configured
/// handler if the entry names that model as primary or fallback, else the model's own.
pub open spec fn requested_handler(e: Option<EntryView>, req: Seq<char>, p: ModelView) -> Seq<char> {
    match e {
        Some(en) => if en.primary.model_id == req {
            en.primary.handler
        } else {
            match en.fallback {
                Some(f) => if f.model_id == req { f.handler } else { handler_or(p, "openai-image-edit"@) },
                None => handler_or(p, "openai-image-edit"@),
            }
        },
        None => handler_or(p, "openai-image-edit"@),
    }
}

/// The route that the configuration gives: a requested model the registry finds
/// comes first; otherwise the entry for the kind, whose primary must resolve.
pub open spec fn config_route(
    entries: Seq<EntryView>,
    s: Seq<ModelView>,
    k: ProviderKeys,
    kind: GenerationKind,
    req: Option<Seq<char>>,
) -> Option<RouteView> {
    let e = entry_for(entries, kind_name(kind));
    let by_request = match req {
        Some(r) => find_spec(s, k, kind, Some(r)),
        None => None,
    };
    if req is Some && by_request is Some {
        let p = by_request->0;
        Some(RouteView {
            primary: RoutedView { model: p, handler: requested_handler(e, req->0, p) },
            fallback: entry_fallback(s, k, kind, e),
        })
    } else {
        match e {
            None => None,
            Some(en) => match routed(s, k, kind, en.primary) {
                None => None,
                Some(pr) => Some(RouteView { primary: pr, fallback: entry_fallback(s, k, kind, e) }),
            },
        }
    }
}

/// The route served: the configuration's route when a configuration is loaded and
/// gives one, else the registry's own.
pub open spec fn route_spec(
    cfg: Option<Seq<EntryView>>,
    s: Seq<ModelView>,
    k: ProviderKeys,
    kind: GenerationKind,
    req: Option<Seq<char>>,
) -> Option<RouteView> {
    match cfg {
        Some(c) => match config_route(c, s, k, kind, req) {
            Some(r) => Some(r),
            None => legacy_route(s, k, kind, req),
        },
        None => legacy_route(s, k, kind, req),
    }
}

/// The first fitting model fits, and a table with a fitting model has an enabled
/// model of the kind.
proof fn lemma_first_fit(s: Seq<ModelView>, kind: GenerationKind, id: Option<Seq<char>>)
    ensures
        first_fit(s, kind, id) matches Some(m) ==> fits(m, kind, id) && m.kind == kind && m.enabled,
        first_fit(s, kind, id) is Some ==> exists|i: int| 0 <= i < s.len() && #[trigger] fits(s[i], kind, None),
        first_fit(s, kind, id) is None ==> forall|i: int| 0 <= i < s.len() ==> !#[trigger] fits(s[i], kind, id),
{
    if exists|i: int| 0 <= i < s.len() && #[trigger] fits(s[i], kind, id) {
        let w = choose|i: int| 0 <= i < s.len() && #[trigger] fits(s[i], kind, id);
        let pr = |m: ModelView| fits(m, kind, id);
        assert(pr(s[w]));
        lemma_exists_first(s, pr, w);
        let c = choose|c: int| 0 <= c < s.len() && #[trigger] pr(s[c]) && forall|j: int| 0 <= j < c ==> !#[trigger] pr(s[j]);
        assert(0 <= c < s.len() && fits(s[c], kind, id) && forall|j: int| 0 <= j < c ==> !fits(s[j], kind, id)) by {
            assert forall|j: int| 0 <= j < c implies !fits(s[j], kind, id) by {
                assert(!pr(s[j]));
            }
        }
        let i2 = choose|i: int|
            0 <= i < s.len() && #[trigger] fits(s[i], kind, id) && forall|j: int| 0 <= j < i ==> !#[trigger] fits(s[j], kind, id);
        assert(fits(s[i2], kind, id));
        assert(fits(s[i2], kind, None));
    }
}

/// The model found for a kind is an enabled model of that kind, and one is found
/// exactly when the table has an enabled model of that kind.
proof fn lemma_find_fits(s: Seq<ModelView>, k: ProviderKeys, kind: GenerationKind, req: Option<Seq<char>>)
    ensures
        find_spec(s, k, kind, req) matches Some(m) ==> m.kind == kind && m.enabled,
        find_spec(s, k, kind, req) is Some <==> exists|i: int| 0 <= i < s.len() && #[trigger] fits(s[i], kind, None),
{
    lemma_first_fit(s, kind, req);
    lemma_first_fit(s, kind, None);
    match default_id(k, kind) {
        Some(d) => lemma_first_fit(s, kind, Some(d)),
        None => {},
    }
    if exists|i: int| 0 <= i < s.len() && #[trigger] fits(s[i], kind, None) {
        let i = choose|i: int| 0 <= i < s.len() && #[trigger] fits(s[i], kind, None);
        assert(first_fit(s, kind, None) is Some);
    }
}

/// A route serves only enabled models of the requested kind, and there is one
/// exactly when the registry has an enabled model of that kind, whatever the
/// configuration and the requested model.
pub proof fn law_route_fits(cfg: Option<Seq<EntryView>>, s: Seq<ModelView>, k: ProviderKeys, kind: GenerationKind, req: Option<Seq<char>>)
    ensures
        route_spec(cfg, s, k, kind, req) is Some <==> find_spec(s, k, kind, req) is Some,
        route_spec(cfg, s, k, kind, req) matches Some(r) ==> {
            &&& r.primary.model.kind == kind
            &&& r.primary.model.enabled
            &&& r.fallback matches Some(f) ==> f.model.kind == kind && f.model.enabled
        },
{
    lemma_find_fits(s, k, kind, req);
    match req {
        Some(x) => lemma_find_fits(s, k, kind, Some(x)),
        None => {},
    }
    match cfg {
        Some(c) => {
            let e = entry_for(c, kind_name(kind));
            match e {
                Some(en) => {
                    lemma_find_fits(s, k, kind, Some(en.primary.model_id));
                    match en.fallback {
                        Some(f) => lemma_find_fits(s, k, kind, Some(f.model_id)),
                        None => {},
                    }
                },
                None => {},
            }
        },
        None => {},
    }
    match find_spec(s, k, kind, req) {
        Some(p) => match p.caps.fallback_model_id {
            Some(fid) => lemma_find_fits(s, k, kind, Some(fid)),
            None => {},
        },
        None => {},
    }
}

/// Among the builtin models, a video request that names no model goes to
/// ByteDance's Seedance model when ByteDance's key is set and Kuaishou's is not,
/// and to Kuaishou's Kling model when Kuaishou's key is set, for the kinds Kling
/// serves: an enabled model of the kind, not a mock.
pub proof fn law_builtin_video_default(k: ProviderKeys, kind: GenerationKind)
    requires
        is_video_kind(kind),
    ensures
        k.bytedance && !k.kuaishou ==> (find_spec(builtin_models(k), k, kind, None) matches Some(m)
            && m.id == "bytedance/seedance-2.0"@ && m.kind == kind && m.enabled),
        k.kuaishou && kind != GenerationKind::VideoEdit ==> (find_spec(builtin_models(k), k, kind, None) matches Some(m)
            && m.id == "kuaishou/kling-3.0"@ && m.kind == kind && m.enabled),
{
    let s = builtin_models(k);
    let n0 = mock_models().len() + placeholder_models().len();
    let v = video_models(k);
    assert(s == mock_models() + placeholder_models() + v + audio_models(k) + image_edit_models(k));
    assert forall|j: int| 0 <= j < v.len() implies #[trigger] s[n0 + j] == v[j] by {}
    let j: int = if kind == GenerationKind::VideoText {
        0
    } else if kind == GenerationKind::VideoFrame {
        1
    } else if kind == GenerationKind::VideoIngredients {
        2
    } else {
        3
    };
    if k.bytedance && !k.kuaishou {
        let id = "bytedance/seedance-2.0"@;
        assert(default_id(k, kind) == Some(id));
        assert(s[n0 + j] == v[j]);
        assert(fits(s[n0 + j], kind, Some(id)));
        lemma_first_fit(s, kind, Some(id));
    }
    if k.kuaishou && kind != GenerationKind::VideoEdit {
        let id = "kuaishou/kling-3.0"@;
        assert(default_id(k, kind) == Some(id));
        assert(s[n0 + 4 + j] == v[4 + j]);
        assert(fits(s[n0 + 4 + j], kind, Some(id)));
        lemma_first_fit(s, kind, Some(id));
    }
}

/// `x` is one of the strings of `v`.
pub fn contains_string(v: &Vec<String>, x: &str) -> (r: bool)
    ensures
        r == string_views(v@).contains(x@),
{
    let ghost sv = string_views(v@);
    let mut i: usize = 0;
    while i < v.len()
        invariant
            i <= v.len(),
            sv == string_views(v@),
            forall|j: int| 0 <= j < i ==> (#[trigger] sv[j]) != x@,
        decreases v.len() - i,
    {
        if str_eq(v[i].as_str(), x) {
            assert(sv[i as int] == x@);
            return true;
        }
        i = i + 1;
    }
    false
}

/// The message of a configuration file that does not parse.
pub open spec fn msg_invalid_config(what: Seq<char>, path: Seq<char>, e: Seq<char>) -> Seq<char> {
    "Invalid "@ + what + " config "@ + path + ": "@ + e
}

/// The message of a configuration file with another schema version.
pub open spec fn msg_schema(what: Seq<char>, n: u32, path: Seq<char>) -> Seq<char> {
    "Unsupported "@ + what + " schema_version "@ + decimal(n as nat) + " in "@ + path
}

/// The error of a configuration file that does not parse.
pub fn invalid_config(what: &str, path: &str, e: &str) -> (r: AetherError)
    ensures
        r matches AetherError::OperationFailed(m) && m@ == msg_invalid_config(what@, path@, e@),
{
    let mut m = owned("Invalid ");
    push_str(&mut m, what);
    push_str(&mut m, " config ");
    push_str(&mut m, path);
    push_str(&mut m, ": ");
    push_str(&mut m, e);
    AetherError::OperationFailed(m)
}

/// The error of a configuration file with another schema version.
pub fn unsupported_schema(what: &str, n: u32, path: &str) -> (r: AetherError)
    ensures
        r matches AetherError::OperationFailed(m) && m@ == msg_schema(what@, n, path@),
{
    let mut m = owned("Unsupported ");
    push_str(&mut m, what);
    push_str(&mut m, " schema_version ");
    let d = u64_decimal(n as u64);
    push_str(&mut m, d.as_str());
    push_str(&mut m, " in ");
    push_str(&mut m, path);
    AetherError::OperationFailed(m)
}

impl RoutingConfig {
    /// Accepts the routing configuration read from `path`: `parsed` is what parsing
    /// the file gave (the configuration, or the parser's message). A file that does
    /// not parse, or whose `schema_version` is not 1, is refused.
    pub fn load(path: &str, parsed: Result<RoutingConfig, String>) -> (r: Result<RoutingConfig, AetherError>)
        ensures
            match parsed {
                Err(e) => r matches Err(AetherError::OperationFailed(m)) && m@ == msg_invalid_config("routing"@, path@, e@),
                Ok(c) => if c.schema_version == 1 {
                    r == Ok::<RoutingConfig, AetherError>(c)
                } else {
                    r matches Err(AetherError::OperationFailed(m)) && m@ == msg_schema("routing"@, c.schema_version, path@)
                },
            },
    {
        match parsed {
            Err(e) => Err(invalid_config("routing", path, e.as_str())),
            Ok(c) => {
                if c.schema_version != 1 {
                    Err(unsupported_schema("routing", c.schema_version, path))
                } else {
                    Ok(c)
                }
            },
        }
    }

    /// The first route entry serving `kind`.
    pub fn function_for_kind(&self, kind: GenerationKind) -> (r: Option<&RouteEntry>)
        ensures
            match r {
                Some(e) => entry_for(entries_view(self.routes@), kind_name(kind)) == Some(e@),
                None => entry_for(entries_view(self.routes@), kind_name(kind)) is None,
            },
    {
        let name = kind.name();
        let ghost s = entries_view(self.routes@);
        let mut i: usize = 0;
        while i < self.routes.len()
            invariant
                i <= self.routes.len(),
                s == entries_view(self.routes@),
                name@ == kind_name(kind),
                forall|j: int| 0 <= j < i ==> !has_kind(#[trigger] s[j], kind_name(kind)),
            decreases self.routes.len() - i,
        {
            assert(s[i as int] == self.routes@[i as int]@);
            if contains_string(&self.routes[i].kinds, name.as_str()) {
                proof {
                    lemma_first_index(s, |e: EntryView| has_kind(e, kind_name(kind)), i as int);
                }
                return Some(&self.routes[i]);
            }
            i = i + 1;
        }
        proof {
            lemma_first_index_none(s, |e: EntryView| has_kind(e, kind_name(kind)));
        }
        None
    }

    /// The model a configured reference resolves to, with the reference's handler.
    pub fn resolve_routed(registry: &ModelRegistry, kind: GenerationKind, spec: &RoutedModelRef) -> (r: Option<RoutedModel>)
        ensures
            opt_routed_view(r) == routed(models_view(registry.models@), registry.keys, kind, spec@),
    {
        match registry.find_model(kind, Some(spec.model_id.as_str())) {
            Some(model) => Some(RoutedModel { model, bridge_handler: spec.bridge_handler.clone() }),
            None => None,
        }
    }

    /// The route this configuration gives for `kind`.
    pub fn resolve_route(&self, registry: &ModelRegistry, kind: GenerationKind, requested_model: Option<&str>) -> (r: Option<ModelRoute>)
        ensures
            opt_route_view(r) == config_route(
                entries_view(self.routes@),
                models_view(registry.models@),
                registry.keys,
                kind,
                opt_str_view(requested_model),
            ),
    {
        let entry = self.function_for_kind(kind);
        let ghost e = match entry {
            Some(x) => Some(x@),
            None => None::<EntryView>,
        };
        let ghost s = models_view(registry.models@);
        let fallback = match entry {
            Some(en) => match &en.fallback {
                Some(f) => Self::resolve_routed(registry, kind, f),
                None => None,
            },
            None => None,
        };
        assert(opt_routed_view(fallback) == entry_fallback(s, registry.keys, kind, e));
        if let Some(req) = requested_model {
            if let Some(primary) = registry.find_model(kind, Some(req)) {
                let bridge_handler = match entry {
                    Some(en) => {
                        if str_eq(en.primary.model_id.as_str(), req) {
                            en.primary.bridge_handler.clone()
                        } else {
                            match &en.fallback {
                                Some(f) => {
                                    if str_eq(f.model_id.as_str(), req) {
                                        f.bridge_handler.clone()
                                    } else {
                                        handler_of(&primary, "openai-image-edit")
                                    }
                                },
                                None => handler_of(&primary, "openai-image-edit"),
                            }
                        }
                    },
                    None => handler_of(&primary, "openai-image-edit"),
                };
                assert(bridge_handler@ == requested_handler(e, req@, primary@));
                return Some(ModelRoute { primary: RoutedModel { model: primary, bridge_handler }, fallback });
            }
        }
        let en = match entry {
            Some(en) => en,
            None => return None,
        };
        let primary = match Self::resolve_routed(registry, kind, &en.primary) {
            Some(p) => p,
            None => return None,
        };
        Some(ModelRoute { primary, fallback })
    }
}

/// The configuration to route with: what loading `routing.v1.json` at `path` gives.
pub fn resolve_routing_config(path: &str, parsed: Result<RoutingConfig, String>) -> (r: Result<RoutingConfig, AetherError>)
    ensures
        match parsed {
            Err(e) => r matches Err(AetherError::OperationFailed(m)) && m@ == msg_invalid_config("routing"@, path@, e@),
            Ok(c) => if c.schema_version == 1 {
                r == Ok::<RoutingConfig, AetherError>(c)
            } else {
                r matches Err(AetherError::OperationFailed(m)) && m@ == msg_schema("routing"@, c.schema_version, path@)
            },
        },
{
    RoutingConfig::load(path, parsed)
}

/// The business function (e.g. `edit-image`) serving `kind`, from the loaded
/// routing configuration; a load error is passed on.
pub fn function_for_kind(loaded: Result<RoutingConfig, AetherError>, kind: GenerationKind) -> (r: Result<String, AetherError>)
    ensures
        match loaded {
            Err(e) => r == Err::<String, AetherError>(e),
            Ok(c) => match entry_for(entries_view(c.routes@), kind_name(kind)) {
                Some(en) => r matches Ok(f) && f@ == en.function,
                None => r matches Err(AetherError::OperationFailed(m)) && m@ == "No routing entry for kind "@ + kind_name(kind),
            },
        },
{
    match loaded {
        Err(e) => Err(e),
        Ok(cfg) => match cfg.function_for_kind(kind) {
            Some(en) => Ok(en.function.clone()),
            None => {
                let mut m = owned("No routing entry for kind ");
                let n = kind.name();
                push_str(&mut m, n.as_str());
                Err(AetherError::OperationFailed(m))
            },
        },
    }
}

impl ModelRegistry {
    /// The route for `kind`: the loaded routing configuration's route when it gives
    /// one, else the route built from the registry alone.
    pub fn resolve_route(&self, cfg: Option<&RoutingConfig>, kind: GenerationKind, requested_model: Option<&str>) -> (r: Option<ModelRoute>)
        ensures
            opt_route_view(r) == route_spec(
                match cfg {
                    Some(c) => Some(entries_view(c.routes@)),
                    None => None,
                },
                models_view(self.models@),
                self.keys,
                kind,
                opt_str_view(requested_model),
            ),
    {
        if let Some(c) = cfg {
            let route = c.resolve_route(self, kind, requested_model);
            if route.is_some() {
                return route;
            }
        }
        self.resolve_route_legacy(kind, requested_model)
    }
}


// ---------------------------------------------------------------------------
// The API bridge's operations
// ---------------------------------------------------------------------------

/// The version of the request format the API bridge reads.
pub const BRIDGE_VERSION: u32 = 1;

/// An operation of the API bridge.
#[derive(Debug, Clone, Copy, PartialEq, Eq, Structural)]
pub enum BridgeOperation {
    ImageEdit,
    VideoGenerate,
    VoiceGenerate,
    MusicGenerate,
}

/// The bridge operation serving a kind, if any.
pub open spec fn bridge_op(kind: GenerationKind) -> Option<BridgeOperation> {
    match kind {
        GenerationKind::ImageEdit => Some(BridgeOperation::ImageEdit),
        GenerationKind::VideoText | GenerationKind::VideoFrame | GenerationKind::VideoIngredients
        | GenerationKind::VideoEdit => Some(BridgeOperation::VideoGenerate),
        GenerationKind::Voice | GenerationKind::VoiceClone | GenerationKind::SceneAudio => Some(
            BridgeOperation::VoiceGenerate,
        ),
        GenerationKind::Music => Some(BridgeOperation::MusicGenerate),
        _ => None,
    }
}

/// The wire name of a bridge operation.
pub open spec fn op_name(op: BridgeOperation) -> Seq<char> {
    match op {
        BridgeOperation::ImageEdit => "image_edit"@,
        BridgeOperation::VideoGenerate => "video_generate"@,
        BridgeOperation::VoiceGenerate => "voice_generate"@,
        BridgeOperation::MusicGenerate => "music_generate"@,
    }
}

impl BridgeOperation {
    /// The bridge operation serving `kind`; storyboards, dialogue and plain images
    /// have none.
    pub fn from_kind(kind: GenerationKind) -> (r: Option<BridgeOperation>)
        ensures
            r == bridge_op(kind),
    {
        match kind {
            GenerationKind::ImageEdit => Some(BridgeOperation::ImageEdit),
            GenerationKind::VideoText | GenerationKind::VideoFrame | GenerationKind::VideoIngredients
            | GenerationKind::VideoEdit => Some(BridgeOperation::VideoGenerate),
            GenerationKind::Voice | GenerationKind::VoiceClone | GenerationKind::SceneAudio => Some(
                BridgeOperation::VoiceGenerate,
            ),
            GenerationKind::Music => Some(BridgeOperation::MusicGenerate),
            _ => None,
        }
    }

    /// The operation's wire name.
    pub fn as_str(&self) -> (r: &'static str)
        ensures
            r@ == op_name(*self),
    {
        match self {
            BridgeOperation::ImageEdit => "image_edit",
            BridgeOperation::VideoGenerate => "video_generate",
            BridgeOperation::VoiceGenerate => "voice_generate",
            BridgeOperation::MusicGenerate => "music_generate",
        }
    }
}

/// The bridge's answer when an operation failed.
#[derive(Debug, Clone)]
pub struct BridgeFailure {
    pub ok: bool,
    pub provider: String,
    pub error: String,
    pub retryable: bool,
}

} // verus!
