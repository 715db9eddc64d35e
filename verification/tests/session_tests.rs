use aether::dsl::{is_project_command, parse_dsl, Command};
use aether::generate::GenerationKind;
use aether::refs::{AetherError, Ref, RefKind};
use aether::registry::{Asset, AssetKind, RefRegistry};
use aether::job::{GeneratedArtifactKind, GenerationArtifact, GenerationStatus};
use aether::session::{
    artifact_asset_kind, branch_decision, checkout_target, generation_report, history_depth, prepare_generation, records_history,
    register_artifacts,
    redo_target, session_snapshot, undo_target, GenerationCall, HistoryEntry,
};
use aether::session::{begin_command, end_command, SessionState};
use aether::edit::EditStep;
use aether::edit::ProjectSettings;
use aether::graph::CompositionGraph;
use aether::timeline::Timeline;

fn entry(commit: &str, parent: Option<&str>, branch: &str) -> HistoryEntry {
    HistoryEntry { commit: commit.to_string(), parent: parent.map(|p| p.to_string()), branch: branch.to_string() }
}

fn history() -> Vec<HistoryEntry> {
    vec![
        entry("c1", None, "main"),
        entry("c2", Some("c1"), "main"),
        entry("c3", Some("c2"), "main"),
        entry("x3", Some("c2"), "alt"),
    ]
}

#[test]
fn undo_at_first_state_is_refused() {
    assert_eq!(
        undo_target("", &history()),
        Err(AetherError::OperationFailed("Already at first history state".to_string()))
    );
}

#[test]
fn undo_moves_to_parent() {
    assert_eq!(undo_target("c3", &history()), Ok("c2".to_string()));
    assert_eq!(undo_target("c1", &history()), Ok(String::new()));
    assert_eq!(undo_target("unknown", &history()), Ok(String::new()));
}

#[test]
fn redo_follows_branch() {
    assert_eq!(redo_target("c2", "main", &history()), Ok("c3".to_string()));
    assert_eq!(redo_target("c2", "alt", &history()), Ok("x3".to_string()));
    assert_eq!(
        redo_target("c3", "main", &history()),
        Err(AetherError::OperationFailed("Already at newest history state".to_string()))
    );
}

#[test]
fn undo_after_redo_returns() {
    let h = history();
    let next = redo_target("c2", "alt", &h).unwrap();
    assert_eq!(undo_target(&next, &h), Ok("c2".to_string()));
}

#[test]
fn history_records_editing_commands_only() {
    assert!(records_history(&parse_dsl("import clip.mp4").unwrap()));
    assert!(records_history(&parse_dsl("canvas 10 10 red").unwrap()));
    assert!(!records_history(&Command::Undo));
    assert!(!records_history(&Command::Redo));
    assert!(!records_history(&Command::Snapshot));
    assert!(!records_history(&parse_dsl("inspect @v1").unwrap()));
    assert!(!records_history(&parse_dsl("export @v1 mp4").unwrap()));
}

#[test]
fn project_commands_are_run_locally() {
    assert!(is_project_command(&parse_dsl("project list").unwrap()));
    assert!(is_project_command(&parse_dsl("project open demo").unwrap()));
    assert!(!is_project_command(&parse_dsl("undo").unwrap()));
    assert!(!is_project_command(&Command::Shutdown));
}

fn refusal(r: Option<Result<GenerationCall, AetherError>>) -> Option<AetherError> {
    match r {
        Some(Err(e)) => Some(e),
        _ => None,
    }
}

fn registry_with_image() -> (RefRegistry, Ref) {
    let mut registry = RefRegistry::new();
    let r = registry.allocate(RefKind::Image);
    let asset = Asset {
        r,
        kind: AssetKind::Image,
        path: "still.png".to_string(),
        hash: "h".to_string(),
        metadata: "{}".to_string(),
    };
    registry.register(r, asset).unwrap();
    (registry, r)
}

#[test]
fn generation_of_plain_command() {
    let (registry, _) = registry_with_image();
    let cmd = parse_dsl("generate music \"calm piano\"").unwrap();
    let call = prepare_generation(&registry, &cmd).unwrap().unwrap();
    assert_eq!(call.kind, GenerationKind::Music);
    assert_eq!(call.user_request, "calm piano");
    assert_eq!(call.model, None);
    assert!(call.inputs.is_empty());
    assert_eq!(call.options, "{}");
}

#[test]
fn generation_voice_request_text() {
    let (registry, _) = registry_with_image();
    let cmd = Command::GenerateVoice { text: "hello".to_string(), voice: Some("alice".to_string()), model: None, options: "{}".to_string() };
    let call = prepare_generation(&registry, &cmd).unwrap().unwrap();
    assert_eq!(call.kind, GenerationKind::Voice);
    assert_eq!(call.user_request, "voice: Some(\"alice\"), text: hello");
}

#[test]
fn generation_edit_image_checks_target() {
    let (registry, img) = registry_with_image();
    let ok = Command::EditImage { target: img, request: "brighter".to_string(), model: None, options: "{\"quality\":\"hd\"}".to_string() };
    let call = prepare_generation(&registry, &ok).unwrap().unwrap();
    assert_eq!(call.kind, GenerationKind::ImageEdit);
    assert_eq!(call.options, "{\"quality\":\"hd\"}");
    assert_eq!(call.inputs, vec![img]);

    let missing = Ref { kind: RefKind::Image, id: 9 };
    let cmd = Command::EditImage { target: missing, request: "x".to_string(), model: None, options: "{}".to_string() };
    assert_eq!(
        refusal(prepare_generation(&registry, &cmd)),
        Some(AetherError::InvalidCommand("Image reference @img9 not found".to_string()))
    );

    let cmd = Command::EditVideo { target: img, request: "x".to_string(), model: None, options: "{}".to_string() };
    assert_eq!(
        refusal(prepare_generation(&registry, &cmd)),
        Some(AetherError::InvalidCommand("Reference @img1 is not a video asset".to_string()))
    );
}

#[test]
fn generation_inputs_must_be_registered() {
    let (registry, img) = registry_with_image();
    let missing = Ref { kind: RefKind::Video, id: 3 };
    let cmd = Command::GenerateVideoFromIngredients { inputs: vec![img, missing], request: "r".to_string(), model: None, options: "{}".to_string() };
    assert_eq!(
        refusal(prepare_generation(&registry, &cmd)),
        Some(AetherError::InvalidCommand("Input reference @v3 not found".to_string()))
    );
}

#[test]
fn non_generation_command_gives_none() {
    let (registry, _) = registry_with_image();
    assert!(prepare_generation(&registry, &Command::Snapshot).is_none());
}

#[test]
fn branch_creation_refused_when_head_exists() {
    assert_eq!(branch_decision("feature", false), Ok("Branch 'feature' created successfully".to_string()));
    assert_eq!(
        branch_decision("main", true),
        Err(AetherError::OperationFailed("Branch 'main' already exists".to_string()))
    );
}

#[test]
fn checkout_prefers_branch_then_commit() {
    assert_eq!(
        checkout_target("feature", &Some("abc".to_string()), false),
        Ok(("feature".to_string(), "abc".to_string()))
    );
    assert_eq!(checkout_target("abc123", &None, true), Ok(("detached".to_string(), "abc123".to_string())));
    assert_eq!(
        checkout_target("nope", &None, false),
        Err(AetherError::OperationFailed("Branch or commit 'nope' not found".to_string()))
    );
}

#[test]
fn history_depth_counts_ancestors() {
    let h = history();
    assert_eq!(history_depth("c3", &h), 3);
    assert_eq!(history_depth("x3", &h), 3);
    assert_eq!(history_depth("c1", &h), 1);
    assert_eq!(history_depth("", &h), 0);
    assert_eq!(history_depth("unknown", &h), 0);
}

fn artifact(path: &str, kind: GeneratedArtifactKind) -> GenerationArtifact {
    GenerationArtifact { kind, path: path.to_string(), asset_ref: None, mime_type: None, metadata: "{}".to_string() }
}

#[test]
fn generated_files_that_become_assets() {
    assert_eq!(artifact_asset_kind(&artifact("/c/a.png", GeneratedArtifactKind::Image)), Some(AssetKind::Image));
    assert_eq!(artifact_asset_kind(&artifact("/c/m.mp3", GeneratedArtifactKind::Music)), Some(AssetKind::Audio));
    assert_eq!(artifact_asset_kind(&artifact("/c/v.mp4", GeneratedArtifactKind::Video)), Some(AssetKind::Video));
    assert_eq!(artifact_asset_kind(&artifact("/c/a.mock-image.png", GeneratedArtifactKind::Image)), None);
    assert_eq!(artifact_asset_kind(&artifact("/c/s.json", GeneratedArtifactKind::Image)), None);
    assert_eq!(artifact_asset_kind(&artifact("/c/s.txt", GeneratedArtifactKind::StoryboardJson)), None);
}

#[test]
fn generation_report_messages() {
    let job = Ref { kind: RefKind::Generated, id: 3 };
    assert_eq!(
        generation_report(job, GenerationStatus::Ready, &Some("mock-image".to_string()), &vec![], &vec![]),
        "Generation @g3 completed with status Ready using model Some(\"mock-image\")"
    );
    let regs = vec![Ref { kind: RefKind::Image, id: 4 }, Ref { kind: RefKind::Audio, id: 1 }];
    assert_eq!(
        generation_report(job, GenerationStatus::Ready, &None, &regs, &vec![]),
        "Generation @g3 completed with status Ready. Registered assets: @img4, @a1"
    );
    let answers = vec![("style".to_string(), "Which style?".to_string())];
    assert_eq!(
        generation_report(job, GenerationStatus::AwaitingClarification, &None, &vec![], &answers),
        "Generation @g3 awaiting prompter clarification (model None)\nPrompter (Maître d'Hôtel) needs answers:\n- [style] Which style?"
    );
}

#[test]
fn generated_files_are_registered_in_order() {
    let mut reg = RefRegistry::new();
    let arts = vec![
        artifact("/c/a.png", GeneratedArtifactKind::Image),
        artifact("/c/a.mock-image.json", GeneratedArtifactKind::Image),
        artifact("/c/b.png", GeneratedArtifactKind::Image),
        artifact("/c/m.wav", GeneratedArtifactKind::Music),
    ];
    let hashes = vec!["h0".to_string(), "h1".to_string(), "h2".to_string(), "h3".to_string()];
    let refs = register_artifacts(&mut reg, &arts, &hashes).unwrap();
    assert_eq!(
        refs,
        vec![
            Ref { kind: RefKind::Image, id: 1 },
            Ref { kind: RefKind::Image, id: 2 },
            Ref { kind: RefKind::Audio, id: 1 },
        ]
    );
    let b = reg.resolve(&Ref { kind: RefKind::Image, id: 2 }).unwrap();
    assert_eq!(b.path, "/c/b.png");
    assert_eq!(b.hash, "h2");
    assert_eq!(b.kind, AssetKind::Image);
    assert_eq!(reg.resolve(&Ref { kind: RefKind::Audio, id: 1 }).unwrap().kind, AssetKind::Audio);
}

#[test]
fn registering_over_a_taken_ref_stops() {
    let mut reg = RefRegistry::new();
    let taken = Ref { kind: RefKind::Image, id: 1 };
    reg.register(
        taken,
        Asset { r: taken, kind: AssetKind::Image, path: "old.png".to_string(), hash: "h".to_string(), metadata: "{}".to_string() },
    )
    .unwrap();
    let arts = vec![artifact("/c/a.png", GeneratedArtifactKind::Image)];
    assert_eq!(
        register_artifacts(&mut reg, &arts, &vec!["x".to_string()]),
        Err(AetherError::RefAlreadyExists(taken))
    );
    assert_eq!(reg.resolve(&taken).unwrap().path, "old.png");
}

#[test]
fn snapshot_counts_commits_behind_current() {
    let mut reg = RefRegistry::new();
    let a = reg.allocate(RefKind::Image);
    reg.register(a, Asset { r: a, kind: AssetKind::Image, path: "a.png".to_string(), hash: "h".to_string(), metadata: "{}".to_string() })
        .unwrap();
    let history = vec![entry("c1", Some(""), "main"), entry("c2", Some("c1"), "main"), entry("x", Some("c1"), "dev")];
    let snap = session_snapshot(ProjectSettings::default(), &reg, "c2", &history, CompositionGraph::new(), Timeline::new());
    assert_eq!(snap.history_len, 2);
    assert_eq!(snap.history_cursor, 2);
    assert_eq!(snap.assets.len(), 1);
    assert_eq!(snap.assets[0].r, a);
    assert_eq!(snap.settings.width, 1920);
    let snap = session_snapshot(ProjectSettings::default(), &reg, "", &history, CompositionGraph::new(), Timeline::new());
    assert_eq!(snap.history_len, 0);
}

fn fresh_session_state() -> SessionState {
    SessionState {
        registry: RefRegistry::new(),
        settings: ProjectSettings::default(),
        graph: CompositionGraph::new(),
        timeline: Timeline::new(),
        branch: "main".to_string(),
        commit: "c0".to_string(),
    }
}

fn canvas_ref(step: Option<Result<EditStep, AetherError>>) -> Ref {
    match step {
        Some(Ok(EditStep::Canvas { new_ref })) => new_ref,
        other => panic!("unexpected step {:?}", other),
    }
}

#[test]
fn failed_command_rolls_the_session_back() {
    let mut state = fresh_session_state();
    let canvas = Command::Canvas { width: 100, height: 100, color: "blue".to_string() };
    let (txn, step) = begin_command(&mut state, &canvas, false);
    let first = canvas_ref(step);
    assert_eq!(first, Ref { kind: RefKind::Image, id: 1 });
    state.settings.width = 640;
    state.branch = "other".to_string();
    state.timeline = Timeline::new();
    let failure = AetherError::OperationFailed("render failed".to_string());
    assert_eq!(end_command(&mut state, txn, Err(failure.clone())), Err(failure));
    assert_eq!(state.settings.width, 1920);
    assert_eq!(state.branch, "main");
    assert_eq!(state.commit, "c0");
    let (txn, step) = begin_command(&mut state, &canvas, false);
    assert_eq!(canvas_ref(step), first);
    assert_eq!(end_command(&mut state, txn, Ok(Some("c1".to_string()))), Ok(()));
    assert_eq!(state.commit, "c1");
    let (_txn, step) = begin_command(&mut state, &canvas, false);
    assert_eq!(canvas_ref(step), Ref { kind: RefKind::Image, id: 2 });
}
