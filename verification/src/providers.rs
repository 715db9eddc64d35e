//! The generation providers' own logic: the mock provider, which answers every
//! request at once with fixed documents, and the bridge provider, which hands
//! requests to the external API bridge. What they read and write on disk, and the
//! bridge process itself, stay with the caller; these functions decide what is
//! written, sent and returned.

use vstd::prelude::*;
use crate::dsl::opt_view;
use crate::generate::{
    bridge_op, copy_opt, kind_name, op_name, BridgeFailure, BridgeOperation, GenerationKind, ModelView, ProviderModel,
    BRIDGE_VERSION,
};
use crate::job::{
    GeneratedArtifactKind, GenerationArtifact, GenerationJob, GenerationOptions, GenerationRequest, GenerationStatus,
    OptionsView,
};
use crate::refs::{AetherError, ErrorV};
use crate::runtime::ProviderSubmitResult;
use crate::session::{debug_option, option_debug};
use crate::text::{decimal, join_path, owned, path_join, push_str, str_eq, u64_decimal};
use crate::vault::copy_strings;

verus! {

// ---------------------------------------------------------------------------
// Mock provider
// ---------------------------------------------------------------------------

/// A provider that answers every request at once with fixed documents written to
/// `output_dir`.
#[derive(Debug, Clone)]
pub struct MockProvider {
    pub output_dir: String,
}

/// A file the mock provider writes, and the artifact that describes it.
#[derive(Debug, Clone)]
pub struct MockOutput {
    pub path: String,
    pub content: String,
    pub artifact: GenerationArtifact,
}

/// The start of the name of the file the mock writes for a kind, and its end.
pub open spec fn mock_file(kind: GenerationKind) -> (Seq<char>, Seq<char>) {
    match kind {
        GenerationKind::StoryboardScratch => ("storyboard_"@, ".json"@),
        GenerationKind::Dialogue => ("dialogue_"@, ".json"@),
        GenerationKind::Image | GenerationKind::ImageEdit => ("image_"@, ".mock-image.json"@),
        GenerationKind::Voice | GenerationKind::VoiceClone | GenerationKind::SceneAudio => ("audio_"@, ".mock-audio.json"@),
        GenerationKind::Music => ("music_"@, ".mock-music.json"@),
        _ => ("video_"@, ".mock-video.json"@),
    }
}

/// What the mock's file for a kind holds.
pub open spec fn mock_artifact_kind(kind: GenerationKind) -> GeneratedArtifactKind {
    match kind {
        GenerationKind::StoryboardScratch => GeneratedArtifactKind::StoryboardJson,
        GenerationKind::Dialogue => GeneratedArtifactKind::DialogueJson,
        GenerationKind::Image | GenerationKind::ImageEdit => GeneratedArtifactKind::Image,
        GenerationKind::Voice | GenerationKind::VoiceClone | GenerationKind::SceneAudio => GeneratedArtifactKind::Audio,
        GenerationKind::Music => GeneratedArtifactKind::Music,
        _ => GeneratedArtifactKind::Video,
    }
}

/// The document the mock writes for a kind; for images it quotes the professional
/// prompt (`prompt`, written as `{:?}` writes an optional string).
pub open spec fn mock_content(kind: GenerationKind, prompt: Option<Seq<char>>) -> Seq<char> {
    match kind {
        GenerationKind::StoryboardScratch => "{\"scenes\": [{\"panel\": 1, \"description\": \"Luxe futuriste, flacon noir\", \"duration\": 5}]}"@,
        GenerationKind::Dialogue => "{\"dialogue\": [{\"character\": \"Hero\", \"line\": \"Le mystère commence.\"}]}"@,
        GenerationKind::Image | GenerationKind::ImageEdit => "{\"mock_image\": true, \"prompt\": "@ + option_debug(prompt) + "}"@,
        GenerationKind::Voice | GenerationKind::VoiceClone | GenerationKind::SceneAudio => "{\"mock_audio\": true, \"sample_rate\": 44100}"@,
        GenerationKind::Music => "{\"mock_music\": true, \"tempo\": 120}"@,
        _ => "{\"mock_video\": true, \"fps\": 30, \"duration_sec\": 4}"@,
    }
}

/// The metadata of every mock artifact.
pub open spec fn mock_metadata() -> Seq<char> {
    "{\"mock_generated\":true,\"provider\":\"mock\"}"@
}

/// The professional prompt of a job, if it has one.
pub open spec fn job_prompt(job: GenerationJob) -> Option<Seq<char>> {
    match job.prompt {
        Some(p) => Some(p.professional_prompt@),
        None => None,
    }
}

impl MockProvider {
    /// A mock provider writing to `output_dir`.
    pub fn new(output_dir: String) -> (m: MockProvider)
        ensures
            m.output_dir@ == output_dir@,
    {
        MockProvider { output_dir }
    }

    /// The provider's name: `mock`.
    pub fn provider_name(&self) -> (r: &'static str)
        ensures
            r@ == "mock"@,
    {
        "mock"
    }

    /// The mock serves the models of provider `mock`.
    pub fn supports(&self, model: &ProviderModel) -> (r: bool)
        ensures
            r == (model.provider@ == "mock"@),
    {
        str_eq(model.provider.as_str(), "mock")
    }

    /// Accepts a request: job `mock-job-<id>`, ready at once.
    pub fn submit(&self, request: &GenerationRequest) -> (r: Result<ProviderSubmitResult, AetherError>)
        ensures
            r matches Ok(s) && s.provider_job_id@ == "mock-job-"@ + decimal(request.job_ref.id as nat) && s.status
                == GenerationStatus::Ready,
    {
        let mut id = owned("mock-job-");
        let d = u64_decimal(request.job_ref.id as u64);
        push_str(&mut id, d.as_str());
        Ok(ProviderSubmitResult { provider_job_id: id, status: GenerationStatus::Ready })
    }

    /// A mock job is always ready.
    pub fn status(&self, job: &GenerationJob) -> (r: Result<GenerationStatus, AetherError>)
        ensures
            r == Ok::<GenerationStatus, AetherError>(GenerationStatus::Ready),
    {
        Ok(GenerationStatus::Ready)
    }

    /// Cancelling a mock job always succeeds.
    pub fn cancel(&self, job: &GenerationJob) -> (r: Result<(), AetherError>)
        ensures
            r is Ok,
    {
        Ok(())
    }

    /// The file the mock writes for a finished job (`<prefix><id><suffix>` in the
    /// output directory, with the document of its kind) and the artifact that
    /// describes it.
    pub fn download_output(&self, job: &GenerationJob) -> (r: MockOutput)
        ensures
            r.path@ == join_path(
                self.output_dir@,
                mock_file(job.kind).0 + decimal(job.job_ref.id as nat) + mock_file(job.kind).1,
            ),
            r.content@ == mock_content(job.kind, job_prompt(*job)),
            r.artifact.kind == mock_artifact_kind(job.kind),
            r.artifact.path@ == r.path@,
            r.artifact.asset_ref is None,
            r.artifact.mime_type matches Some(m) && m@ == "application/json"@,
            r.artifact.metadata@ == mock_metadata(),
    {
        let (prefix, suffix, kind) = match job.kind {
            GenerationKind::StoryboardScratch => ("storyboard_", ".json", GeneratedArtifactKind::StoryboardJson),
            GenerationKind::Dialogue => ("dialogue_", ".json", GeneratedArtifactKind::DialogueJson),
            GenerationKind::Image | GenerationKind::ImageEdit => ("image_", ".mock-image.json", GeneratedArtifactKind::Image),
            GenerationKind::Voice | GenerationKind::VoiceClone | GenerationKind::SceneAudio => (
                "audio_",
                ".mock-audio.json",
                GeneratedArtifactKind::Audio,
            ),
            GenerationKind::Music => ("music_", ".mock-music.json", GeneratedArtifactKind::Music),
            _ => ("video_", ".mock-video.json", GeneratedArtifactKind::Video),
        };
        let content = match job.kind {
            GenerationKind::StoryboardScratch => owned(
                "{\"scenes\": [{\"panel\": 1, \"description\": \"Luxe futuriste, flacon noir\", \"duration\": 5}]}",
            ),
            GenerationKind::Dialogue => owned("{\"dialogue\": [{\"character\": \"Hero\", \"line\": \"Le mystère commence.\"}]}"),
            GenerationKind::Image | GenerationKind::ImageEdit => {
                let prompt = match &job.prompt {
                    Some(p) => Some(p.professional_prompt.clone()),
                    None => None,
                };
                let mut c = owned("{\"mock_image\": true, \"prompt\": ");
                let d = debug_option(&prompt);
                push_str(&mut c, d.as_str());
                push_str(&mut c, "}");
                c
            },
            GenerationKind::Voice | GenerationKind::VoiceClone | GenerationKind::SceneAudio => owned(
                "{\"mock_audio\": true, \"sample_rate\": 44100}",
            ),
            GenerationKind::Music => owned("{\"mock_music\": true, \"tempo\": 120}"),
            _ => owned("{\"mock_video\": true, \"fps\": 30, \"duration_sec\": 4}"),
        };
        let mut name = owned(prefix);
        let d = u64_decimal(job.job_ref.id as u64);
        push_str(&mut name, d.as_str());
        push_str(&mut name, suffix);
        let path = path_join(self.output_dir.as_str(), name.as_str());
        let artifact = GenerationArtifact {
            kind,
            path: path.clone(),
            asset_ref: None,
            mime_type: Some(owned("application/json")),
            metadata: owned("{\"mock_generated\":true,\"provider\":\"mock\"}"),
        };
        MockOutput { path, content, artifact }
    }
}


// ---------------------------------------------------------------------------
// Bridge provider
// ---------------------------------------------------------------------------

/// A file the bridge produced; `metadata` is JSON text.
#[derive(Debug, Clone)]
pub struct BridgeArtifactOut {
    pub path: String,
    pub mime_type: String,
    pub metadata: String,
}

/// The bridge's answer when an operation succeeded; `metadata` is JSON text.
#[derive(Debug, Clone)]
pub struct BridgeSuccess {
    pub ok: bool,
    pub provider: String,
    pub provider_job_id: String,
    pub status: String,
    pub artifacts: Vec<BridgeArtifactOut>,
    pub metadata: String,
}

/// The bridge's answer.
#[derive(Debug, Clone)]
pub enum BridgeResponse {
    Success(BridgeSuccess),
    Failure(BridgeFailure),
}

/// A request to the bridge. `messages` and `tools` are JSON texts.
#[derive(Debug, Clone)]
pub struct BridgeRequest {
    pub version: u32,
    pub operation: String,
    pub model_id: String,
    pub bridge_handler: Option<String>,
    pub agent: Option<String>,
    pub provider: Option<String>,
    pub api_model: Option<String>,
    pub messages: Option<Vec<String>>,
    pub tools: Option<String>,
    pub prompt: String,
    pub input_image_paths: Vec<String>,
    pub output_dir: String,
    pub options: GenerationOptions,
}

/// A provider that runs generations through the external API bridge, a script it
/// starts for each request, keeping the bridge's answers in `output_dir`.
#[derive(Debug, Clone)]
pub struct BridgeGenerationProvider {
    pub bridge_script: String,
    pub output_dir: String,
}

/// The providers the bridge serves.
pub open spec fn bridge_serves(provider: Seq<char>) -> bool {
    provider == "openai"@ || provider == "google"@ || provider == "bytedance"@ || provider == "kuaishou"@
        || provider == "elevenlabs"@ || provider == "minimax"@
}

/// The handler a bridge request names: the request's own, else the model's.
pub open spec fn handler_of(options: OptionsView, model: ModelView) -> Option<Seq<char>> {
    match options.bridge_handler {
        Some(h) => Some(h),
        None => model.caps.bridge_handler,
    }
}

/// A hexadecimal digit, in lowercase, of a value below sixteen.
pub open spec fn hex_digit(n: int) -> char {
    if n < 10 {
        (48 + n) as char
    } else {
        (87 + n) as char
    }
}

/// How a character is written inside a JSON string literal: the quote and the
/// backslash escaped, backspace, form feed, line feed, carriage return and tab by
/// their short escapes, other control characters as `\u00` and two lowercase hex
/// digits, every other character as it is.
pub open spec fn json_char(c: char) -> Seq<char> {
    if c == '"' {
        seq!['\\', '"']
    } else if c == '\\' {
        seq!['\\', '\\']
    } else if c == '\u{8}' {
        seq!['\\', 'b']
    } else if c == '\u{c}' {
        seq!['\\', 'f']
    } else if c == '\n' {
        seq!['\\', 'n']
    } else if c == '\r' {
        seq!['\\', 'r']
    } else if c == '\t' {
        seq!['\\', 't']
    } else if (c as int) < 0x20 {
        seq!['\\', 'u', '0', '0', hex_digit((c as int) / 16), hex_digit((c as int) % 16)]
    } else {
        seq![c]
    }
}

/// The escaped characters of a text inside a JSON string literal.
pub open spec fn json_chars(s: Seq<char>) -> Seq<char>
    decreases s.len(),
{
    if s.len() == 0 {
        Seq::empty()
    } else {
        json_chars(s.drop_last()) + json_char(s.last())
    }
}

/// The JSON string literal of a text: its escaped characters between double quotes.
pub open spec fn json_string_text(s: Seq<char>) -> Seq<char> {
    seq!['"'] + json_chars(s) + seq!['"']
}

/// The JSON string literal of a text, as `serde_json::to_string` writes it for a
/// string (writing into memory does not fail).
#[verifier::external_body]
pub(crate) fn json_string(s: &str) -> (r: String)
    ensures
        r@ == json_string_text(s@),
{
    match serde_json::to_string(s) {
        Ok(t) => t,
        Err(_) => String::new(),
    }
}

/// The metadata of an artifact the bridge produced: the bridge's provider, the
/// provider's metadata and the artifact's, as one JSON object with its members in
/// key order.
pub open spec fn bridge_artifact_metadata(provider: Seq<char>, provider_metadata: Seq<char>, artifact_metadata: Seq<char>) -> Seq<char> {
    "{\"artifact_metadata\":"@ + artifact_metadata + ",\"bridge\":true,\"provider\":"@ + json_string_text(provider)
        + ",\"provider_metadata\":"@ + provider_metadata + "}"@
}

impl BridgeGenerationProvider {
    /// A bridge provider running `bridge_script` and keeping its answers in
    /// `output_dir`.
    pub fn new(bridge_script: String, output_dir: String) -> (b: BridgeGenerationProvider)
        ensures
            b.bridge_script@ == bridge_script@,
            b.output_dir@ == output_dir@,
    {
        BridgeGenerationProvider { bridge_script, output_dir }
    }

    /// The provider's name: `bridge`.
    pub fn provider_name(&self) -> (r: &'static str)
        ensures
            r@ == "bridge"@,
    {
        "bridge"
    }

    /// The bridge serves the models of OpenAI, Google, ByteDance, Kuaishou,
    /// ElevenLabs and MiniMax.
    pub fn supports(&self, model: &ProviderModel) -> (r: bool)
        ensures
            r == bridge_serves(model.provider@),
    {
        let p = model.provider.as_str();
        str_eq(p, "openai") || str_eq(p, "google") || str_eq(p, "bytedance") || str_eq(p, "kuaishou") || str_eq(
            p,
            "elevenlabs",
        ) || str_eq(p, "minimax")
    }

    /// The request the bridge gets for `request` on `model` with prompt
    /// `prompt_text`: refused for kinds the bridge does not serve, and when the
    /// request names no input file.
    pub fn build_request(&self, request: &GenerationRequest, model: &ProviderModel, prompt_text: &str) -> (r: Result<BridgeRequest, AetherError>)
        ensures
            bridge_op(request.kind) is None ==> (r matches Err(e) && e@ == ErrorV::OperationFailed(
                "Bridge does not support generation kind "@ + kind_name(request.kind),
            )),
            bridge_op(request.kind) is Some && request.options.input_asset_paths@.len() == 0 ==> (r matches Err(e) && e@
                == ErrorV::OperationFailed("Bridge image_edit requires options.input_asset_paths (absolute file paths)"@)),
            bridge_op(request.kind) is Some && request.options.input_asset_paths@.len() > 0 ==> (r matches Ok(b) && {
                &&& b.version == BRIDGE_VERSION
                &&& b.operation@ == op_name(bridge_op(request.kind)->0)
                &&& b.model_id@ == model.id@
                &&& opt_view(b.bridge_handler) == handler_of(request.options@, model@)
                &&& b.agent is None
                &&& opt_view(b.provider) == Some(model.provider@)
                &&& opt_view(b.api_model) == opt_view(model.capabilities.api_model)
                &&& b.messages is None
                &&& b.tools is None
                &&& b.prompt@ == prompt_text@
                &&& b.input_image_paths@.map_values(|p: String| p@) == request.options.input_asset_paths@.map_values(
                    |p: String| p@,
                )
                &&& b.output_dir@ == self.output_dir@
                &&& b.options@ == request.options@
            }),
    {
        let op = match BridgeOperation::from_kind(request.kind) {
            Some(o) => o,
            None => {
                let mut m = owned("Bridge does not support generation kind ");
                let k = request.kind.name();
                push_str(&mut m, k.as_str());
                return Err(AetherError::OperationFailed(m));
            },
        };
        if request.options.input_asset_paths.len() == 0 {
            return Err(
                AetherError::OperationFailed(owned("Bridge image_edit requires options.input_asset_paths (absolute file paths)")),
            );
        }
        let bridge_handler = match &request.options.bridge_handler {
            Some(h) => Some(h.clone()),
            None => copy_opt(&model.capabilities.bridge_handler),
        };
        let paths = copy_strings(&request.options.input_asset_paths);
        Ok(BridgeRequest {
            version: BRIDGE_VERSION,
            operation: owned(op.as_str()),
            model_id: model.id.clone(),
            bridge_handler,
            agent: None,
            provider: Some(model.provider.clone()),
            api_model: copy_opt(&model.capabilities.api_model),
            messages: None,
            tools: None,
            prompt: owned(prompt_text),
            input_image_paths: paths,
            output_dir: self.output_dir.clone(),
            options: request.options.duplicate(),
        })
    }

    /// What a submission sends: the professional prompt when the request carries
    /// one, else the user's request; and the model the request was routed to,
    /// without which it is refused.
    pub fn submit_inputs(&self, request: &GenerationRequest) -> (r: Result<(String, ProviderModel), AetherError>)
        ensures
            request.options.resolved_model is None ==> (r matches Err(e) && e@ == ErrorV::OperationFailed(
                "Bridge submit requires options.resolved_model"@,
            )),
            request.options.resolved_model matches Some(m) ==> (r matches Ok(t) && t.1@ == m@ && t.0@ == (match request.options.professional_prompt {
                Some(p) => p@,
                None => request.user_request@,
            })),
    {
        let prompt = match &request.options.professional_prompt {
            Some(p) => p.clone(),
            None => request.user_request.clone(),
        };
        match &request.options.resolved_model {
            Some(m) => Ok((prompt, m.duplicate())),
            None => Err(AetherError::OperationFailed(owned("Bridge submit requires options.resolved_model"))),
        }
    }

    /// The successful answer of the bridge, or the refusal it amounts to.
    pub fn outcome(&self, resp: BridgeResponse) -> (r: Result<BridgeSuccess, AetherError>)
        ensures
            match resp {
                BridgeResponse::Success(s) => if s.ok {
                    r == Ok::<BridgeSuccess, AetherError>(s)
                } else {
                    r matches Err(e) && e@ == ErrorV::OperationFailed("Bridge returned ok=false in success variant"@)
                },
                BridgeResponse::Failure(f) => r matches Err(e) && e@ == ErrorV::OperationFailed(
                    "Bridge "@ + f.provider@ + " failed: "@ + f.error@,
                ),
            },
    {
        match resp {
            BridgeResponse::Success(s) => {
                if s.ok {
                    Ok(s)
                } else {
                    Err(AetherError::OperationFailed(owned("Bridge returned ok=false in success variant")))
                }
            },
            BridgeResponse::Failure(f) => {
                let mut m = owned("Bridge ");
                push_str(&mut m, f.provider.as_str());
                push_str(&mut m, " failed: ");
                push_str(&mut m, f.error.as_str());
                Err(AetherError::OperationFailed(m))
            },
        }
    }

    /// The file that keeps the bridge's answer for job `job_id`.
    pub fn cache_path(&self, job_id: &str) -> (r: String)
        ensures
            r@ == join_path(self.output_dir@, job_id@ + ".bridge.json"@),
    {
        let mut name = owned(job_id);
        push_str(&mut name, ".bridge.json");
        path_join(self.output_dir.as_str(), name.as_str())
    }

    /// The file to read a finished job's answer from; refused for a job the bridge
    /// never accepted.
    pub fn download_path(&self, job: &GenerationJob) -> (r: Result<String, AetherError>)
        ensures
            match job.provider_job_id {
                Some(id) => r matches Ok(p) && p@ == join_path(self.output_dir@, id@ + ".bridge.json"@),
                None => r matches Err(e) && e@ == ErrorV::OperationFailed("Missing provider_job_id"@),
            },
    {
        match &job.provider_job_id {
            Some(id) => Ok(self.cache_path(id.as_str())),
            None => Err(AetherError::OperationFailed(owned("Missing provider_job_id"))),
        }
    }

    /// The artifacts of a successful answer: one image per file the bridge
    /// produced, in order, with its path, its MIME type and metadata naming the
    /// bridge's provider.
    pub fn artifacts_from_success(&self, success: &BridgeSuccess) -> (r: Vec<GenerationArtifact>)
        ensures
            r@.len() == success.artifacts@.len(),
            forall|i: int| 0 <= i < r@.len() ==> {
                let a = #[trigger] r@[i];
                let o = success.artifacts@[i];
                &&& a.kind == GeneratedArtifactKind::Image
                &&& a.path@ == o.path@
                &&& a.asset_ref is None
                &&& (a.mime_type matches Some(m) && m@ == o.mime_type@)
                &&& a.metadata@ == bridge_artifact_metadata(success.provider@, success.metadata@, o.metadata@)
            },
    {
        let quoted = json_string(success.provider.as_str());
        let mut out: Vec<GenerationArtifact> = Vec::new();
        let mut i: usize = 0;
        while i < success.artifacts.len()
            invariant
                i <= success.artifacts.len(),
                out@.len() == i,
                quoted@ == json_string_text(success.provider@),
                forall|j: int| 0 <= j < i ==> {
                    let a = #[trigger] out@[j];
                    let o = success.artifacts@[j];
                    &&& a.kind == GeneratedArtifactKind::Image
                    &&& a.path@ == o.path@
                    &&& a.asset_ref is None
                    &&& (a.mime_type matches Some(m) && m@ == o.mime_type@)
                    &&& a.metadata@ == bridge_artifact_metadata(success.provider@, success.metadata@, o.metadata@)
                },
            decreases success.artifacts.len() - i,
        {
            let o = &success.artifacts[i];
            let mut meta = owned("{\"artifact_metadata\":");
            push_str(&mut meta, o.metadata.as_str());
            push_str(&mut meta, ",\"bridge\":true,\"provider\":");
            push_str(&mut meta, quoted.as_str());
            push_str(&mut meta, ",\"provider_metadata\":");
            push_str(&mut meta, success.metadata.as_str());
            push_str(&mut meta, "}");
            out.push(
                GenerationArtifact {
                    kind: GeneratedArtifactKind::Image,
                    path: o.path.clone(),
                    asset_ref: None,
                    mime_type: Some(o.mime_type.clone()),
                    metadata: meta,
                },
            );
            i = i + 1;
        }
        out
    }
}

} // verus!
