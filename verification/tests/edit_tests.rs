use aether::dsl::Command;
use aether::edit::{
    concat_track, export_check, export_file_name, import_ref_kind, overlay_graph, parse_resolution, plan_edit,
    registered_message, EditStep, ProjectSettings,
};
use aether::graph::{CompositionGraph, TransitionKind};
use aether::refs::{AetherError, Ref, RefKind};
use aether::registry::{Asset, AssetKind, RefRegistry};
use aether::timeline::{Timeline, TrackKind};

fn asset(r: Ref, kind: AssetKind) -> Asset {
    Asset { r, kind, path: format!("{}.bin", r.to_string()), hash: "h1".to_string(), metadata: "{}".to_string() }
}

fn registry() -> (RefRegistry, Ref, Ref, Ref) {
    let mut reg = RefRegistry::new();
    let v = reg.allocate(RefKind::Video);
    let a = reg.allocate(RefKind::Audio);
    let i = reg.allocate(RefKind::Image);
    reg.register(v, asset(v, AssetKind::Video)).unwrap();
    reg.register(a, asset(a, AssetKind::Audio)).unwrap();
    reg.register(i, asset(i, AssetKind::Image)).unwrap();
    (reg, v, a, i)
}

#[test]
fn resolution_texts() {
    assert_eq!(parse_resolution("1280x720"), Some((1280, 720)));
    assert_eq!(parse_resolution("+5x7"), Some((5, 7)));
    assert_eq!(parse_resolution("1280x"), None);
    assert_eq!(parse_resolution("1x2x3"), None);
    assert_eq!(parse_resolution("1280X720"), None);
    assert_eq!(parse_resolution("axb"), None);
}

#[test]
fn init_updates_settings() {
    let mut s = ProjectSettings::default();
    assert_eq!(s.fps_bits, 30.0f32.to_bits());
    assert_eq!((s.width, s.height), (1920, 1080));
    assert_eq!(s.colorspace, "srgb");
    s.apply_init(Some(24.0f32.to_bits()), &Some("640x480".to_string()), &Some("rec709".to_string()));
    assert_eq!(s.fps_bits, 24.0f32.to_bits());
    assert_eq!((s.width, s.height), (640, 480));
    assert_eq!(s.colorspace, "rec709");
    s.apply_init(None, &Some("bad".to_string()), &None);
    assert_eq!((s.width, s.height), (640, 480));
    assert_eq!(s.colorspace, "rec709");
}

#[test]
fn import_classifies_by_extension() {
    assert_eq!(import_ref_kind("music/song.WAV"), RefKind::Audio);
    assert_eq!(import_ref_kind("pic.jpeg"), RefKind::Image);
    assert_eq!(import_ref_kind("clip.mov"), RefKind::Video);
    assert_eq!(import_ref_kind("noext"), RefKind::Video);
    assert_eq!(import_ref_kind(".png"), RefKind::Video);
}

#[test]
fn import_of_missing_file_is_refused() {
    let (mut reg, _, _, _) = registry();
    let cmd = Command::Import { path: "nothing.wav".to_string() };
    match plan_edit(&mut reg, &cmd, false) {
        Some(Err(AetherError::IoError(p, m))) => {
            assert_eq!(p, "nothing.wav");
            assert_eq!(m, "File does not exist");
        }
        other => panic!("unexpected {:?}", other),
    }
    match plan_edit(&mut reg, &cmd, true) {
        Some(Ok(EditStep::Import { new_ref })) => assert_eq!(new_ref, Ref { kind: RefKind::Audio, id: 2 }),
        other => panic!("unexpected {:?}", other),
    }
}

#[test]
fn media_operations_check_kinds() {
    let (mut reg, v, a, i) = registry();
    let trim = Command::Trim { r: i, start: "0".to_string(), end: "1".to_string() };
    assert!(matches!(plan_edit(&mut reg, &trim, true), Some(Err(AetherError::InvalidCommand(m))) if m == "Cannot trim image asset"));
    let mix = Command::Mix { r: v, volume: "-14".to_string() };
    assert!(matches!(plan_edit(&mut reg, &mix, true),
        Some(Err(AetherError::InvalidCommand(m))) if m == "Mix command is only supported for audio assets"));
    let text = Command::DrawText { r: a, text: "t".to_string(), font: "f".to_string(), size: "12".to_string(), x: 0, y: 0 };
    assert!(matches!(plan_edit(&mut reg, &text, true),
        Some(Err(AetherError::InvalidCommand(m))) if m == "DrawText is only supported on image assets"));
    let missing = Ref { kind: RefKind::Video, id: 40 };
    let trim = Command::Trim { r: missing, start: "0".to_string(), end: "1".to_string() };
    assert_eq!(plan_edit(&mut reg, &trim, true).unwrap().unwrap_err(), AetherError::RefNotFound(missing));
    match plan_edit(&mut reg, &Command::Mix { r: a, volume: "-14".to_string() }, true) {
        Some(Ok(EditStep::Normalize { source, new_ref })) => {
            assert_eq!(source.r, a);
            assert_eq!(new_ref, Ref { kind: RefKind::Audio, id: 2 });
        }
        other => panic!("unexpected {:?}", other),
    }
    assert!(plan_edit(&mut reg, &Command::Undo, true).is_none());
}

#[test]
fn canvas_gets_next_image_ref_and_message() {
    let (mut reg, _, _, _) = registry();
    let cmd = Command::Canvas { width: 10, height: 10, color: "red".to_string() };
    let step = plan_edit(&mut reg, &cmd, true).unwrap().unwrap();
    let r = match &step {
        EditStep::Canvas { new_ref } => *new_ref,
        other => panic!("unexpected {:?}", other),
    };
    assert_eq!(r, Ref { kind: RefKind::Image, id: 2 });
    assert_eq!(registered_message(&step, r), Some("Canvas successfully registered as @img2".to_string()));
    assert_eq!(reg.allocate(RefKind::Image), Ref { kind: RefKind::Image, id: 3 });
}

#[test]
fn mix_tracks_reports_first_missing_input() {
    let (mut reg, v, a, _) = registry();
    let missing = Ref { kind: RefKind::Audio, id: 9 };
    let cmd = Command::MixTracks { refs: vec![a, missing, v], volumes: vec![], pans: vec![] };
    assert_eq!(plan_edit(&mut reg, &cmd, true).unwrap().unwrap_err(), AetherError::RefNotFound(missing));
    let cmd = Command::MixTracks { refs: vec![a, v], volumes: vec![], pans: vec![] };
    match plan_edit(&mut reg, &cmd, true) {
        Some(Ok(EditStep::MixTracks { sources, new_ref })) => {
            assert_eq!(sources.len(), 2);
            assert_eq!(sources[1].r, v);
            assert_eq!(new_ref, Ref { kind: RefKind::Audio, id: 3 });
        }
        other => panic!("unexpected {:?}", other),
    }
}

#[test]
fn export_names_and_kinds() {
    let a = asset(Ref { kind: RefKind::Video, id: 1 }, AssetKind::Video);
    assert_eq!(export_file_name(&a, "mp4"), "h1.mp4");
    assert!(export_check(AssetKind::Image).is_ok());
    assert_eq!(
        export_check(AssetKind::Audio),
        Err(AetherError::InvalidCommand("Export only supported for Video and Image assets".to_string()))
    );
}

#[test]
fn concat_lays_clips_end_to_end() {
    let (reg, v, _, i) = registry();
    let mut timeline = Timeline::new();
    concat_track(&mut timeline, &reg, &vec![i, v], &Some("Crossfade".to_string()), Some(2000), &vec![None, Some(3000)])
        .unwrap();
    assert_eq!(timeline.tracks.len(), 1);
    let t = &timeline.tracks[0];
    assert_eq!(t.name, "Concat Track 1");
    assert_eq!(t.kind, TrackKind::Video);
    assert_eq!(t.clips.len(), 2);
    assert_eq!((t.clips[0].track_offset_ms, t.clips[0].out_point_ms), (0, 2000));
    assert_eq!((t.clips[1].track_offset_ms, t.clips[1].out_point_ms), (2000, 3000));
    assert_eq!(t.clips[1].transition, Some(TransitionKind::Crossfade));

    let missing = Ref { kind: RefKind::Image, id: 8 };
    let r = concat_track(&mut timeline, &reg, &vec![v, missing], &None, None, &vec![None, None]);
    assert_eq!(r, Err(AetherError::RefNotFound(missing)));
    assert_eq!(timeline.tracks.len(), 1);
}

#[test]
fn concat_of_audio_defaults_and_dissolve() {
    let (reg, _, a, _) = registry();
    let mut timeline = Timeline::new();
    concat_track(&mut timeline, &reg, &vec![a], &Some("FadeToBlack".to_string()), None, &vec![None]).unwrap();
    let t = &timeline.tracks[0];
    assert_eq!(t.kind, TrackKind::Audio);
    assert_eq!(t.clips[0].out_point_ms, 5000);
    assert_eq!(t.clips[0].transition, Some(TransitionKind::Dissolve));
}

#[test]
fn overlay_builds_four_nodes() {
    let (reg, v, _, i) = registry();
    let mut graph = CompositionGraph::new();
    let out = overlay_graph(&mut graph, &reg, v, i, &Some("Screen".to_string()), None).unwrap();
    assert_eq!(out, 4);
    assert_eq!(graph.output_node(), Some(4));
    assert_eq!(graph.connections().len(), 3);
    let mut ids = graph.node_ids();
    ids.sort();
    assert_eq!(ids, vec![1, 2, 3, 4]);
    assert_eq!(graph.topological_sort().unwrap().last(), Some(&4));

    let out2 = overlay_graph(&mut graph, &reg, i, v, &None, Some(0.5f32.to_bits())).unwrap();
    assert_eq!(out2, 8);
    let missing = Ref { kind: RefKind::Video, id: 77 };
    assert_eq!(overlay_graph(&mut graph, &reg, missing, v, &None, None), Err(AetherError::RefNotFound(missing)));
    assert_eq!(graph.connections().len(), 6);
}
