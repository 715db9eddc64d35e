use aether::providers::MockProvider;
use aether::generate::{
    function_for_kind, BridgeOperation, GenerationKind, ModelRegistry, ProviderEnv, RouteEntry, RoutedModelRef,
    RoutingConfig,
};
use aether::job::{
    GeneratedArtifactKind, GenerationArtifact, GenerationJob, GenerationOptions, GenerationRequest, GenerationStatus,
    ParamsValue,
};
use aether::prompt::{PromptMaker, PromptMakerContext, RuleBasedPromptMaker};
use aether::refs::{AetherError, Ref};
use aether::runtime::{
    after_download, after_status, StatusStep, merge_api_options, Backend, Clock, DefaultGenerationRuntime, GenerationProvider, ProviderSubmitResult,
    RoutingGenerationProvider,
};
use aether::generate::ProviderModel;

fn no_keys() -> ProviderEnv {
    ProviderEnv { vars: Vec::new() }
}

fn env_with(key: &str, value: &str) -> ProviderEnv {
    ProviderEnv { vars: vec![(key.to_string(), value.to_string())] }
}

#[test]
fn test_model_registry() {
    let registry = ModelRegistry::with_builtin_placeholders(&no_keys());
    let mock_video = registry.find_model(GenerationKind::VideoText, None).unwrap();
    assert_eq!(mock_video.provider, "mock");
    assert_eq!(mock_video.id, "mock/video-text");
    assert!(mock_video.enabled);

    let list = registry.list_by_kind(GenerationKind::VideoText);
    assert!(list.iter().any(|m| m.id == "mock/video-text"));
    assert!(list.iter().any(|m| m.id == "google/veo-3"));

    let google_veo = list.iter().find(|m| m.id == "google/veo-3").unwrap();
    assert!(!google_veo.enabled);

    let resolved = registry.find_model(GenerationKind::VideoText, Some("google/veo-3")).unwrap();
    assert_eq!(resolved.id, "mock/video-text");
}

#[test]
fn test_image_edit_route_has_nano_banana_fallback() {
    let registry = ModelRegistry::with_builtin_placeholders(&no_keys());
    let route = registry
        .resolve_route(None, GenerationKind::ImageEdit, None)
        .expect("route when mock or real enabled");

    if route.primary.model.id == "openai/gpt-image-2" {
        let fb = route.fallback.expect("fallback model");
        assert_eq!(fb.model.id, "google/gemini-3.1-flash-image-preview");
        assert_eq!(fb.bridge_handler, "nano-banana-image-edit");
    }
}

#[test]
fn image_edit_route_with_both_keys_falls_back_to_nano_banana() {
    let env = ProviderEnv {
        vars: vec![
            ("OPENAI_API_KEY".to_string(), "sk-test".to_string()),
            ("GEMINI_API_KEY".to_string(), "g-test".to_string()),
        ],
    };
    let registry = ModelRegistry::with_builtin_placeholders(&env);
    let route = registry.resolve_route(None, GenerationKind::ImageEdit, None).unwrap();
    assert_eq!(route.primary.model.id, "openai/gpt-image-2");
    assert_eq!(route.primary.bridge_handler, "openai-image-edit");
    assert_eq!(route.candidates().len(), 2);
    let fb = route.fallback.expect("fallback model");
    assert_eq!(fb.model.id, "google/gemini-3.1-flash-image-preview");
    assert_eq!(fb.bridge_handler, "nano-banana-image-edit");
}

#[test]
fn blank_key_does_not_enable_provider() {
    let registry = ModelRegistry::with_builtin_placeholders(&env_with("KLING_API_KEY", "  \t"));
    assert!(!registry.keys.kuaishou);
    assert_eq!(registry.default_model_id(GenerationKind::VideoText), None);
    let registry = ModelRegistry::with_builtin_placeholders(&env_with("KLING_API_KEY", "k"));
    assert_eq!(registry.default_model_id(GenerationKind::VideoFrame), Some("kuaishou/kling-3.0".to_string()));
    assert_eq!(registry.find_model(GenerationKind::VideoText, None).unwrap().id, "kuaishou/kling-3.0");
}

#[test]
fn builtin_table_has_every_model_once_per_kind() {
    let registry = ModelRegistry::with_builtin_placeholders(&no_keys());
    assert_eq!(registry.models.len(), 32);
    assert_eq!(registry.models[0].id, "mock/storyboard");
    assert_eq!(registry.list_by_kind(GenerationKind::ImageEdit).len(), 4);
}

fn sample_routing() -> RoutingConfig {
    RoutingConfig {
        schema_version: 1,
        routes: vec![RouteEntry {
            function: "edit-image".to_string(),
            kinds: vec!["ImageEdit".to_string()],
            primary: RoutedModelRef {
                model_id: "openai/gpt-image-2".to_string(),
                bridge_handler: "openai-image-edit".to_string(),
            },
            fallback: Some(RoutedModelRef {
                model_id: "google/gemini-3.1-flash-image-preview".to_string(),
                bridge_handler: "nano-banana-image-edit".to_string(),
            }),
        }],
    }
}

#[test]
fn routing_config_serves_image_edit() {
    let cfg = RoutingConfig::load("routing.v1.json", Ok(sample_routing())).unwrap();
    let edit = cfg.function_for_kind(GenerationKind::ImageEdit).unwrap();
    assert_eq!(edit.function, "edit-image");
    assert_eq!(edit.primary.model_id, "openai/gpt-image-2");
    assert!(cfg.function_for_kind(GenerationKind::Music).is_none());
    assert_eq!(function_for_kind(Ok(sample_routing()), GenerationKind::ImageEdit), Ok("edit-image".to_string()));
    assert_eq!(
        function_for_kind(Ok(sample_routing()), GenerationKind::Music),
        Err(AetherError::OperationFailed("No routing entry for kind Music".to_string()))
    );
}

#[test]
fn routing_config_with_other_schema_is_refused() {
    let mut cfg = sample_routing();
    cfg.schema_version = 2;
    assert_eq!(
        RoutingConfig::load("g/routing.v1.json", Ok(cfg)).err(),
        Some(AetherError::OperationFailed("Unsupported routing schema_version 2 in g/routing.v1.json".to_string()))
    );
    assert_eq!(
        RoutingConfig::load("g/routing.v1.json", Err("eof".to_string())).err(),
        Some(AetherError::OperationFailed("Invalid routing config g/routing.v1.json: eof".to_string()))
    );
}

#[test]
fn configured_route_without_keys_uses_enabled_mock() {
    let registry = ModelRegistry::with_builtin_placeholders(&no_keys());
    let cfg = sample_routing();
    let route = registry.resolve_route(Some(&cfg), GenerationKind::ImageEdit, None).unwrap();
    assert_eq!(route.primary.model.id, "mock/image-edit");
    assert_eq!(route.primary.bridge_handler, "openai-image-edit");
    let fb = route.fallback.unwrap();
    assert_eq!(fb.model.id, "mock/image-edit");
    assert_eq!(fb.bridge_handler, "nano-banana-image-edit");
}

#[test]
fn bridge_operations() {
    assert_eq!(BridgeOperation::from_kind(GenerationKind::ImageEdit), Some(BridgeOperation::ImageEdit));
    assert_eq!(BridgeOperation::from_kind(GenerationKind::SceneAudio), Some(BridgeOperation::VoiceGenerate));
    assert_eq!(BridgeOperation::from_kind(GenerationKind::Dialogue), None);
    assert_eq!(BridgeOperation::VideoGenerate.as_str(), "video_generate");
    assert_eq!(GenerationKind::VideoIngredients.name(), "VideoIngredients");
}

fn context(summary: Option<&str>, locale: Option<&str>, style: Option<&str>) -> PromptMakerContext {
    PromptMakerContext {
        project_summary: summary.map(|s| s.to_string()),
        locale: locale.map(|s| s.to_string()),
        style_hint: style.map(|s| s.to_string()),
        vault_context: None,
        target_model_id: None,
        explicit_options: GenerationOptions::default(),
    }
}

#[test]
fn test_rule_based_prompt_maker() {
    let maker = RuleBasedPromptMaker;
    let ctx = context(Some("Cyberpunk aesthetic"), Some("en"), Some("neon glowing"));

    let res = maker.make_prompt(GenerationKind::Image, "cyberpunk street", &ctx).unwrap();
    assert_eq!(res.original_request, "cyberpunk street");
    assert!(res.professional_prompt.contains("[AI Generation Mode: Image]"));
    assert!(res.professional_prompt.contains("(Style: neon glowing)"));
    assert!(res.professional_prompt.contains("[Project Summary: Cyberpunk aesthetic]"));
    assert_eq!(res.style, Some("neon glowing".to_string()));
    assert_eq!(res.locale, Some("en".to_string()));
}

#[test]
fn rule_based_prompt_exact_text() {
    let res = RuleBasedPromptMaker
        .make_prompt(GenerationKind::Music, "calm piano", &context(None, None, Some("lofi")))
        .unwrap();
    assert_eq!(res.professional_prompt, "[AI Generation Mode: Music] calm piano (Style: lofi)");
    assert_eq!(res.negative_prompt, Some("low quality, blurry, distorted".to_string()));
    assert_eq!(res.technical.enriched_by, Some("RuleBasedPromptMaker".to_string()));
}

/// The answers a test provider gives: those its own methods compute.
fn same_submit(a: Result<ProviderSubmitResult, AetherError>, b: Result<ProviderSubmitResult, AetherError>) -> bool {
    match (a, b) {
        (Ok(x), Ok(y)) => x.provider_job_id == y.provider_job_id && x.status == y.status,
        (Err(x), Err(y)) => x == y,
        _ => false,
    }
}

fn same_download(a: Result<Vec<GenerationArtifact>, AetherError>, b: Result<Vec<GenerationArtifact>, AetherError>) -> bool {
    match (a, b) {
        (Ok(x), Ok(y)) => x.len() == y.len() && x.iter().zip(y.iter()).all(|(p, q)| p.path == q.path && p.kind == q.kind),
        (Err(x), Err(y)) => x == y,
        _ => false,
    }
}

struct TestProvider {
    refuse: bool,
}

impl GenerationProvider for TestProvider {
    fn submit_answers(&self, request: GenerationRequest, r: Result<ProviderSubmitResult, AetherError>) -> bool {
        same_submit(self.submit(&request), r)
    }
    fn status_answers(&self, job: GenerationJob, r: Result<GenerationStatus, AetherError>) -> bool {
        self.status(&job) == r
    }
    fn download_answers(&self, job: GenerationJob, r: Result<Vec<GenerationArtifact>, AetherError>) -> bool {
        same_download(self.download(&job), r)
    }
    fn cancel_answers(&self, job: GenerationJob, r: Result<(), AetherError>) -> bool {
        self.cancel(&job) == r
    }
    fn provider_name(&self) -> &'static str {
        "test"
    }
    fn supports(&self, _model: &ProviderModel) -> bool {
        true
    }
    fn submit(&self, request: &GenerationRequest) -> Result<ProviderSubmitResult, AetherError> {
        if self.refuse {
            return Err(AetherError::OperationFailed("refused".to_string()));
        }
        Ok(ProviderSubmitResult {
            provider_job_id: format!("mock-job-{}", request.job_ref.id),
            status: GenerationStatus::Ready,
        })
    }
    fn status(&self, _job: &GenerationJob) -> Result<GenerationStatus, AetherError> {
        Ok(GenerationStatus::Ready)
    }
    fn download(&self, job: &GenerationJob) -> Result<Vec<GenerationArtifact>, AetherError> {
        Ok(vec![GenerationArtifact {
            kind: if job.kind == GenerationKind::StoryboardScratch {
                GeneratedArtifactKind::StoryboardJson
            } else {
                GeneratedArtifactKind::Image
            },
            path: "out/storyboard.json".to_string(),
            asset_ref: None,
            mime_type: Some("application/json".to_string()),
            metadata: "{}".to_string(),
        }])
    }
    fn cancel(&self, _job: &GenerationJob) -> Result<(), AetherError> {
        if self.refuse {
            return Err(AetherError::OperationFailed("cannot cancel".to_string()));
        }
        Ok(())
    }
}

struct FixedClock;

impl Clock for FixedClock {
    fn now_ms(&self) -> u64 {
        1_000
    }
}

fn storyboard_request() -> GenerationRequest {
    let mut options = GenerationOptions::default();
    options.style = Some("cinematic".to_string());
    options.locale = Some("fr".to_string());
    GenerationRequest {
        job_ref: "@g10".parse::<Ref>().unwrap(),
        kind: GenerationKind::StoryboardScratch,
        user_request: "commercial for perfume".to_string(),
        model: None,
        inputs: Vec::new(),
        options,
    }
}

/// The mock provider of the library; the files it would write are kept in memory.
struct FileMock {
    inner: MockProvider,
}

impl GenerationProvider for FileMock {
    fn submit_answers(&self, request: GenerationRequest, r: Result<ProviderSubmitResult, AetherError>) -> bool {
        same_submit(self.submit(&request), r)
    }
    fn status_answers(&self, job: GenerationJob, r: Result<GenerationStatus, AetherError>) -> bool {
        self.status(&job) == r
    }
    fn download_answers(&self, job: GenerationJob, r: Result<Vec<GenerationArtifact>, AetherError>) -> bool {
        same_download(self.download(&job), r)
    }
    fn cancel_answers(&self, job: GenerationJob, r: Result<(), AetherError>) -> bool {
        self.cancel(&job) == r
    }
    fn provider_name(&self) -> &'static str {
        self.inner.provider_name()
    }
    fn supports(&self, model: &ProviderModel) -> bool {
        self.inner.supports(model)
    }
    fn submit(&self, request: &GenerationRequest) -> Result<ProviderSubmitResult, AetherError> {
        self.inner.submit(request)
    }
    fn status(&self, job: &GenerationJob) -> Result<GenerationStatus, AetherError> {
        self.inner.status(job)
    }
    fn download(&self, job: &GenerationJob) -> Result<Vec<GenerationArtifact>, AetherError> {
        let out = self.inner.download_output(job);
        assert!(!out.content.is_empty());
        Ok(vec![out.artifact])
    }
    fn cancel(&self, job: &GenerationJob) -> Result<(), AetherError> {
        self.inner.cancel(job)
    }
}

#[test]
fn test_generation_runtime_run_to_completion() {
    let mock = FileMock { inner: MockProvider::new("/tmp/aether_runtime_test".to_string()) };
    let runtime: DefaultGenerationRuntime<FileMock, TestProvider, RuleBasedPromptMaker> =
        DefaultGenerationRuntime::mock(mock, None, None, ModelRegistry::with_builtin_placeholders(&no_keys()), None);
    let request = storyboard_request();
    let job = runtime.run_to_completion(request, &FixedClock).unwrap();
    assert_eq!(job.job_ref, "@g10".parse::<Ref>().unwrap());
    assert_eq!(job.status, GenerationStatus::Ready);
    assert_eq!(job.resolved_model.as_ref().unwrap().id, "mock/storyboard");
    assert!(job.prompt.is_some());
    let prompt = job.prompt.as_ref().unwrap();
    assert!(prompt.professional_prompt.contains("[AI Generation Mode: StoryboardScratch]"));
    assert!(prompt.professional_prompt.contains("(Style: cinematic)"));
    assert_eq!(prompt.locale, Some("fr".to_string()));
    assert_eq!(job.artifacts.len(), 1);
    let art = &job.artifacts[0];
    assert_eq!(art.kind, GeneratedArtifactKind::StoryboardJson);
    assert_eq!(art.path, "/tmp/aether_runtime_test/storyboard_10.json");
    assert_eq!(job.provider_job_id, Some("mock-job-10".to_string()));

    let mut to_cancel = job.clone();
    runtime.cancel(&mut to_cancel, &FixedClock).unwrap();
    assert_eq!(to_cancel.status, GenerationStatus::Cancelled);
}

#[test]
fn generation_runtime_runs_with_test_provider() {
    let runtime: DefaultGenerationRuntime<TestProvider, TestProvider, RuleBasedPromptMaker> = DefaultGenerationRuntime::new(
        TestProvider { refuse: false },
        None,
        None,
        ModelRegistry::with_builtin_placeholders(&no_keys()),
        None,
    );
    let job = runtime.run_to_completion(storyboard_request(), &FixedClock).unwrap();
    assert_eq!(job.status, GenerationStatus::Ready);
    assert_eq!(job.artifacts[0].kind, GeneratedArtifactKind::StoryboardJson);
    assert_eq!(job.options.bridge_handler, Some("openai-image-edit".to_string()));
}

#[test]
fn generation_runtime_reports_refusal() {
    let runtime: DefaultGenerationRuntime<TestProvider, TestProvider, RuleBasedPromptMaker> = DefaultGenerationRuntime::new(
        TestProvider { refuse: true },
        None,
        None,
        ModelRegistry::with_builtin_placeholders(&no_keys()),
        None,
    );
    assert_eq!(
        runtime.run_to_completion(storyboard_request(), &FixedClock).unwrap_err(),
        AetherError::OperationFailed("refused".to_string())
    );
}

#[test]
fn routing_provider_delegates_by_provider() {
    let routing = RoutingGenerationProvider::<TestProvider, TestProvider> { mock: TestProvider { refuse: false }, bridge: None };
    let mut model = ModelRegistry::with_builtin_placeholders(&no_keys()).models[0].clone();
    assert_eq!(routing.delegate(&model), Ok(Backend::Mock));
    model.provider = "openai".to_string();
    assert!(matches!(routing.delegate(&model), Err(AetherError::OperationFailed(_))));
    model.provider = "minimax".to_string();
    assert_eq!(
        routing.delegate(&model),
        Err(AetherError::OperationFailed("No provider backend for model provider 'minimax'".to_string()))
    );
}

#[test]
fn api_options_are_laid_over_provider_params() {
    let mut target = vec![
        ("openai".to_string(), ParamsValue::Object(vec![("size".to_string(), "\"1024\"".to_string())])),
        ("google".to_string(), ParamsValue::Other("null".to_string())),
    ];
    let api = vec![
        ("openai".to_string(), ParamsValue::Object(vec![
            ("size".to_string(), "\"2048\"".to_string()),
            ("quality".to_string(), "\"high\"".to_string()),
        ])),
        ("google".to_string(), ParamsValue::Object(vec![("seed".to_string(), "1".to_string())])),
        ("kling".to_string(), ParamsValue::Other("true".to_string())),
    ];
    merge_api_options(&mut target, &api);
    assert_eq!(target.len(), 3);
    match &target[0].1 {
        ParamsValue::Object(m) => {
            assert_eq!(m.len(), 2);
            assert_eq!(m[0], ("size".to_string(), "\"2048\"".to_string()));
            assert_eq!(m[1], ("quality".to_string(), "\"high\"".to_string()));
        }
        other => panic!("unexpected {:?}", other),
    }
    assert!(matches!(&target[1].1, ParamsValue::Object(m) if m.len() == 1));
    assert_eq!(target[2].0, "kling");
}

#[test]
fn routing_provider_refuses_unserved_models() {
    let routing = RoutingGenerationProvider::<TestProvider, TestProvider> { mock: TestProvider { refuse: false }, bridge: None };
    let mut req = storyboard_request();
    assert_eq!(
        routing.submit(&req).unwrap_err(),
        AetherError::OperationFailed("RoutingProvider submit requires options.resolved_model".to_string())
    );
    let mut model = ModelRegistry::with_builtin_placeholders(&no_keys()).models[0].clone();
    model.provider = "google".to_string();
    req.options.resolved_model = Some(model.clone());
    assert_eq!(
        routing.submit(&req).unwrap_err(),
        AetherError::OperationFailed(
            "Real provider requested but API bridge is not configured (build services/aether-api-bridge)".to_string()
        )
    );
    model.provider = "acme".to_string();
    req.options.resolved_model = Some(model);
    assert_eq!(
        routing.submit(&req).unwrap_err(),
        AetherError::OperationFailed("No provider backend for model provider 'acme'".to_string())
    );
}

fn plain_job() -> GenerationJob {
    GenerationJob {
        job_ref: "@g3".parse::<Ref>().unwrap(),
        kind: GenerationKind::Image,
        status: GenerationStatus::Submitted,
        requested_model: None,
        resolved_model: None,
        provider_job_id: Some("p1".to_string()),
        prompt: None,
        inputs: Vec::new(),
        artifacts: Vec::new(),
        error: None,
        created_at_ms: 1,
        updated_at_ms: 2,
        options: GenerationOptions::default(),
    }
}

#[test]
fn status_answers_decide_the_next_step() {
    match after_status(plain_job(), Ok(GenerationStatus::Ready), 9) {
        StatusStep::Download(j) => {
            assert_eq!(j.status, GenerationStatus::Downloading);
            assert_eq!(j.updated_at_ms, 2);
            let done = after_download(j, Ok(vec![GenerationArtifact {
                kind: GeneratedArtifactKind::Image,
                path: "out/a.png".to_string(),
                asset_ref: None,
                mime_type: None,
                metadata: "{}".to_string(),
            }]), 10).unwrap();
            assert_eq!(done.status, GenerationStatus::Ready);
            assert_eq!(done.artifacts.len(), 1);
            assert_eq!(done.updated_at_ms, 10);
        },
        other => panic!("unexpected {:?}", other),
    }
    match after_status(plain_job(), Ok(GenerationStatus::Running), 9) {
        StatusStep::Done(j) => {
            assert_eq!(j.status, GenerationStatus::Running);
            assert_eq!(j.updated_at_ms, 9);
            assert!(j.artifacts.is_empty());
        },
        other => panic!("unexpected {:?}", other),
    }
    assert!(matches!(
        after_status(plain_job(), Err(AetherError::OperationFailed("down".to_string())), 9),
        StatusStep::Failed(AetherError::OperationFailed(m)) if m == "down"
    ));
    let j = match after_status(plain_job(), Ok(GenerationStatus::Ready), 9) {
        StatusStep::Download(j) => j,
        other => panic!("unexpected {:?}", other),
    };
    assert_eq!(
        after_download(j, Err(AetherError::MediaError("gone".to_string())), 10).unwrap_err(),
        AetherError::MediaError("gone".to_string())
    );
}

#[test]
fn cancel_returns_the_provider_answer() {
    let make = |refuse: bool| -> DefaultGenerationRuntime<TestProvider, TestProvider, RuleBasedPromptMaker> {
        DefaultGenerationRuntime::new(
            TestProvider { refuse },
            None,
            None,
            ModelRegistry::with_builtin_placeholders(&no_keys()),
            None,
        )
    };
    let job = make(false).run_to_completion(storyboard_request(), &FixedClock).unwrap();
    let mut refused = job.clone();
    assert_eq!(
        make(true).cancel(&mut refused, &FixedClock),
        Err(AetherError::OperationFailed("cannot cancel".to_string()))
    );
    assert_eq!(refused.status, job.status);
    let mut accepted = job.clone();
    assert_eq!(make(false).cancel(&mut accepted, &FixedClock), Ok(()));
    assert_eq!(accepted.status, GenerationStatus::Cancelled);
    let mut unresolved = job.clone();
    unresolved.resolved_model = None;
    assert_eq!(
        make(false).cancel(&mut unresolved, &FixedClock),
        Err(AetherError::OperationFailed("Job missing resolved_model".to_string()))
    );
    assert_eq!(unresolved.status, job.status);
}

#[test]
fn routes_serve_enabled_models_of_the_kind() {
    let registry = ModelRegistry::with_builtin_placeholders(&no_keys());
    let kinds = [
        GenerationKind::StoryboardScratch,
        GenerationKind::Dialogue,
        GenerationKind::Image,
        GenerationKind::ImageEdit,
        GenerationKind::Voice,
        GenerationKind::VoiceClone,
        GenerationKind::SceneAudio,
        GenerationKind::Music,
        GenerationKind::VideoText,
        GenerationKind::VideoFrame,
        GenerationKind::VideoIngredients,
        GenerationKind::VideoEdit,
    ];
    for kind in kinds {
        let route = registry.resolve_route(None, kind, None);
        assert_eq!(route.is_some(), registry.find_model(kind, None).is_some());
        if let Some(r) = route {
            assert_eq!(r.primary.model.kind, kind);
            assert!(r.primary.model.enabled);
            if let Some(f) = r.fallback {
                assert_eq!(f.model.kind, kind);
                assert!(f.model.enabled);
            }
        }
    }
}
