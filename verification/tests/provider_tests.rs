use aether::generate::{GenerationKind, ModelCapabilities, ProviderModel};
use aether::job::{GeneratedArtifactKind, GenerationJob, GenerationOptions, GenerationRequest, GenerationStatus};
use aether::generate::BridgeFailure;
use aether::providers::{BridgeArtifactOut, BridgeGenerationProvider, BridgeResponse, BridgeSuccess, MockProvider};
use aether::refs::{AetherError, Ref, RefKind};

fn caps() -> ModelCapabilities {
    ModelCapabilities {
        api_model: Some("gpt-image-1".to_string()),
        display_name: None,
        bridge_handler: Some("openai_images".to_string()),
        prompt_guide: None,
        fallback_model_id: None,
        alias_of: None,
    }
}

fn model(provider: &str) -> ProviderModel {
    ProviderModel { id: format!("{}/m", provider), provider: provider.to_string(), kind: GenerationKind::ImageEdit, enabled: true, capabilities: caps() }
}

fn request(kind: GenerationKind, options: GenerationOptions) -> GenerationRequest {
    GenerationRequest {
        job_ref: Ref { kind: RefKind::Generated, id: 5 },
        kind,
        user_request: "a sunset".to_string(),
        model: None,
        inputs: vec![],
        options,
    }
}

fn job(kind: GenerationKind, provider_job_id: Option<String>) -> GenerationJob {
    GenerationJob {
        job_ref: Ref { kind: RefKind::Generated, id: 5 },
        kind,
        status: GenerationStatus::Ready,
        requested_model: None,
        resolved_model: None,
        provider_job_id,
        prompt: None,
        inputs: vec![],
        artifacts: vec![],
        error: None,
        created_at_ms: 0,
        updated_at_ms: 0,
        options: GenerationOptions::default(),
    }
}

#[test]
fn test_mock_provider() {
    let provider = MockProvider::new("/tmp/aether_mock_provider_test".to_string());

    let job_ref = "@g5".parse::<Ref>().unwrap();
    let submit_res = provider.submit(&request(GenerationKind::Image, GenerationOptions::default())).unwrap();
    assert_eq!(submit_res.status, GenerationStatus::Ready);
    assert_eq!(submit_res.provider_job_id, "mock-job-5");

    let mut j = job(GenerationKind::Image, Some(submit_res.provider_job_id));
    j.job_ref = job_ref;
    let out = provider.download_output(&j);
    let art = &out.artifact;
    assert_eq!(art.kind, GeneratedArtifactKind::Image);
    assert_eq!(art.path, "/tmp/aether_mock_provider_test/image_5.mock-image.json");
    assert_eq!(out.path, art.path);
    assert_eq!(out.content, "{\"mock_image\": true, \"prompt\": None}");
    assert_eq!(art.mime_type.as_deref(), Some("application/json"));
    assert_eq!(art.metadata, "{\"mock_generated\":true,\"provider\":\"mock\"}");
    assert!(provider.supports(&model("mock")));
    assert!(!provider.supports(&model("openai")));
}

#[test]
fn mock_files_by_kind() {
    let provider = MockProvider::new("/out/".to_string());
    let out = provider.download_output(&job(GenerationKind::Music, None));
    assert_eq!(out.path, "/out/music_5.mock-music.json");
    assert_eq!(out.content, "{\"mock_music\": true, \"tempo\": 120}");
    let out = provider.download_output(&job(GenerationKind::Dialogue, None));
    assert_eq!(out.path, "/out/dialogue_5.json");
    assert_eq!(out.artifact.kind, GeneratedArtifactKind::DialogueJson);
}

#[test]
fn bridge_serves_known_providers() {
    let b = BridgeGenerationProvider::new("bridge.js".to_string(), "/cache".to_string());
    assert_eq!(b.provider_name(), "bridge");
    assert!(b.supports(&model("google")));
    assert!(b.supports(&model("minimax")));
    assert!(!b.supports(&model("mock")));
}

#[test]
fn bridge_request_building() {
    let b = BridgeGenerationProvider::new("bridge.js".to_string(), "/cache".to_string());
    let m = model("openai");
    let r = b.build_request(&request(GenerationKind::Dialogue, GenerationOptions::default()), &m, "p");
    assert_eq!(r.unwrap_err(), AetherError::OperationFailed("Bridge does not support generation kind Dialogue".to_string()));
    let r = b.build_request(&request(GenerationKind::ImageEdit, GenerationOptions::default()), &m, "p");
    assert_eq!(
        r.unwrap_err(),
        AetherError::OperationFailed("Bridge image_edit requires options.input_asset_paths (absolute file paths)".to_string())
    );
    let mut opts = GenerationOptions::default();
    opts.input_asset_paths = vec!["/a.png".to_string()];
    let req = b.build_request(&request(GenerationKind::ImageEdit, opts), &m, "pro prompt").unwrap();
    assert_eq!(req.operation, "image_edit");
    assert_eq!(req.model_id, "openai/m");
    assert_eq!(req.bridge_handler.as_deref(), Some("openai_images"));
    assert_eq!(req.api_model.as_deref(), Some("gpt-image-1"));
    assert_eq!(req.provider.as_deref(), Some("openai"));
    assert_eq!(req.prompt, "pro prompt");
    assert_eq!(req.input_image_paths, vec!["/a.png".to_string()]);
    assert_eq!(req.output_dir, "/cache");
}

#[test]
fn bridge_submit_needs_model() {
    let b = BridgeGenerationProvider::new("bridge.js".to_string(), "/cache".to_string());
    assert_eq!(
        b.submit_inputs(&request(GenerationKind::ImageEdit, GenerationOptions::default())).unwrap_err(),
        AetherError::OperationFailed("Bridge submit requires options.resolved_model".to_string())
    );
    let mut opts = GenerationOptions::default();
    opts.resolved_model = Some(model("openai"));
    opts.professional_prompt = Some("better".to_string());
    let (prompt, m) = b.submit_inputs(&request(GenerationKind::ImageEdit, opts)).unwrap();
    assert_eq!(prompt, "better");
    assert_eq!(m.id, "openai/m");
}

#[test]
fn bridge_answers() {
    let b = BridgeGenerationProvider::new("bridge.js".to_string(), "/cache".to_string());
    let fail = BridgeResponse::Failure(BridgeFailure { ok: false, provider: "openai".to_string(), error: "quota".to_string(), retryable: true });
    assert_eq!(b.outcome(fail).unwrap_err(), AetherError::OperationFailed("Bridge openai failed: quota".to_string()));
    let success = BridgeSuccess {
        ok: true,
        provider: "openai".to_string(),
        provider_job_id: "j1".to_string(),
        status: "done".to_string(),
        artifacts: vec![BridgeArtifactOut { path: "/cache/x.png".to_string(), mime_type: "image/png".to_string(), metadata: "{}".to_string() }],
        metadata: "{\"n\":1}".to_string(),
    };
    let arts = b.artifacts_from_success(&success);
    assert_eq!(arts.len(), 1);
    assert_eq!(arts[0].path, "/cache/x.png");
    assert_eq!(arts[0].metadata, "{\"artifact_metadata\":{},\"bridge\":true,\"provider\":\"openai\",\"provider_metadata\":{\"n\":1}}");
    let mut not_ok = success.clone();
    not_ok.ok = false;
    assert_eq!(
        b.outcome(BridgeResponse::Success(not_ok)).unwrap_err(),
        AetherError::OperationFailed("Bridge returned ok=false in success variant".to_string())
    );
    assert!(b.outcome(BridgeResponse::Success(success)).is_ok());
    assert_eq!(b.download_path(&job(GenerationKind::ImageEdit, Some("j1".to_string()))).unwrap(), "/cache/j1.bridge.json");
    assert_eq!(
        b.download_path(&job(GenerationKind::ImageEdit, None)).unwrap_err(),
        AetherError::OperationFailed("Missing provider_job_id".to_string())
    );
}
