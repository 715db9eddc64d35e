use aether::color::{parse_color, Rgba8};
use aether::edit::overlay_graph;
use aether::edl::{edl_text, format_timecode};
use aether::graph::TransitionKind;
use aether::timeline::{Clip, Timeline, Track, TrackKind};
use aether::graph::{BlendMode, CompositionGraph, Connection, Node, NodeKind};
use aether::refs::{AetherError, Ref, RefKind};
use aether::registry::{Asset, AssetKind, RefRegistry};
use aether::render::{box_window_sums, CpuBackend, GpuBackend, RenderStep};

fn registry_with(kinds: &[(RefKind, AssetKind)]) -> (RefRegistry, Vec<Ref>) {
    let mut reg = RefRegistry::new();
    let mut refs = Vec::new();
    for (rk, ak) in kinds {
        let r = reg.allocate(*rk);
        reg.register(r, Asset { r, kind: *ak, path: "x.png".to_string(), hash: "h".to_string(), metadata: "{}".to_string() })
            .unwrap();
        refs.push(r);
    }
    (reg, refs)
}

#[test]
fn overlay_renders_sources_then_blend() {
    let (reg, refs) = registry_with(&[(RefKind::Image, AssetKind::Image), (RefKind::Image, AssetKind::Image)]);
    let mut graph = CompositionGraph::new();
    let out = overlay_graph(&mut graph, &reg, refs[0], refs[1], &Some("Screen".to_string()), None).unwrap();
    assert_eq!(out, 4);
    let plan = CpuBackend.render_plan(&graph, &reg);
    assert_eq!(plan.end, Ok(3));
    assert_eq!(plan.steps.len(), 3);
    match &plan.steps[0] {
        RenderStep::Load { node, asset } => {
            assert_eq!(*node, 2);
            assert_eq!(asset.r, refs[1]);
        }
        other => panic!("unexpected {:?}", other),
    }
    assert!(matches!(&plan.steps[1], RenderStep::Load { node: 1, .. }));
    match &plan.steps[2] {
        RenderStep::Blend { node, base, overlay, mode, opacity_bits } => {
            assert_eq!((*node, *base, *overlay), (3, 1, 2));
            assert_eq!(*mode, BlendMode::Screen);
            assert_eq!(*opacity_bits, 1.0f32.to_bits());
        }
        other => panic!("unexpected {:?}", other),
    }
}

#[test]
fn render_without_output_fails() {
    let (reg, refs) = registry_with(&[(RefKind::Image, AssetKind::Image)]);
    let mut graph = CompositionGraph::new();
    let plan = CpuBackend.render_plan(&graph, &reg);
    assert!(plan.steps.is_empty());
    assert_eq!(plan.end, Err(AetherError::OperationFailed("Graph had no output node".to_string())));
    graph.add_node(Node { id: 1, kind: NodeKind::Source(refs[0]) });
    let plan = CpuBackend.render_plan(&graph, &reg);
    assert_eq!(plan.steps.len(), 1);
    assert_eq!(plan.end, Err(AetherError::OperationFailed("Graph had no output node".to_string())));
}

#[test]
fn render_reports_missing_inputs() {
    let (reg, refs) = registry_with(&[(RefKind::Image, AssetKind::Image)]);
    let mut graph = CompositionGraph::new();
    graph.add_node(Node { id: 1, kind: NodeKind::Output });
    let plan = CpuBackend.render_plan(&graph, &reg);
    assert_eq!(plan.end, Err(AetherError::OperationFailed("Missing input for Output node 1".to_string())));

    let mut graph = CompositionGraph::new();
    graph.add_node(Node { id: 1, kind: NodeKind::Source(refs[0]) });
    graph.add_node(Node { id: 5, kind: NodeKind::Blend { mode: BlendMode::Normal, opacity_bits: 0 } });
    graph.connect(Connection { from_node: 1, from_port: 0, to_node: 5, to_port: 0 }).unwrap();
    let plan = CpuBackend.render_plan(&graph, &reg);
    assert_eq!(plan.steps.len(), 1);
    assert_eq!(plan.end, Err(AetherError::OperationFailed("Missing overlay input for Blend node 5".to_string())));
}

#[test]
fn render_of_unregistered_source_fails() {
    let (reg, _) = registry_with(&[]);
    let missing = Ref { kind: RefKind::Image, id: 9 };
    let mut graph = CompositionGraph::new();
    graph.add_node(Node { id: 1, kind: NodeKind::Source(missing) });
    let plan = CpuBackend.render_plan(&graph, &reg);
    assert_eq!(plan.end, Err(AetherError::RefNotFound(missing)));
}

#[test]
fn gpu_backend_is_disabled() {
    let (reg, _) = registry_with(&[]);
    let graph = CompositionGraph::new();
    assert_eq!(
        GpuBackend.render(&graph, 4, 4, &reg),
        Err(AetherError::OperationFailed("GPU backend is disabled. Recompile with --features gpu to enable.".to_string()))
    );
}

#[test]
fn edl_lists_clips_with_timecodes() {
    assert_eq!(format_timecode(0, 30), "00:00:00:00");
    assert_eq!(format_timecode(30 * 3661 + 7, 30), "01:01:01:07");
    let (reg, refs) = registry_with(&[(RefKind::Video, AssetKind::Video)]);
    let mut timeline = Timeline::new();
    timeline.tracks.push(Track {
        name: "V1".to_string(),
        kind: TrackKind::Video,
        clips: vec![Clip { asset_ref: refs[0], in_point_ms: 1000, out_point_ms: 3000, track_offset_ms: 500, transition: Some(TransitionKind::Crossfade) }],
    });
    let text = edl_text(&timeline, &reg).unwrap();
    assert_eq!(
        text,
        "TITLE: AETHER Project\nFCM: NON-DROP FRAME\n\n001  AX       V     C        00:00:01:00 00:00:03:00 00:00:00:15 00:00:02:15\n* FROM CLIP NAME: x.png\n\n"
    );
    let missing = Ref { kind: RefKind::Video, id: 9 };
    timeline.tracks[0].clips.push(Clip { asset_ref: missing, in_point_ms: 0, out_point_ms: 10, track_offset_ms: 0, transition: None });
    assert_eq!(edl_text(&timeline, &reg), Err(AetherError::RefNotFound(missing)));
}

fn rgba(r: u8, g: u8, b: u8, a: u8) -> Rgba8 {
    Rgba8 { r, g, b, a }
}

#[test]
fn test_color_parsing() {
    let red = parse_color("red");
    assert_eq!(red, rgba(255, 0, 0, 255));

    let hex6 = parse_color("#00ff00");
    assert_eq!(hex6, rgba(0, 255, 0, 255));

    let hex8 = parse_color("#0000ff80");
    assert_eq!(hex8, rgba(0, 0, 255, 128));

    let default_color = parse_color("invalid_color");
    assert_eq!(default_color, rgba(128, 128, 128, 255));
}

#[test]
fn color_texts_are_trimmed_and_lowercased() {
    assert_eq!(parse_color("  MAGENTA "), rgba(255, 0, 255, 255));
    assert_eq!(parse_color("##FF0000"), rgba(255, 0, 0, 255));
    assert_eq!(parse_color("#zz00ff"), rgba(0, 0, 255, 255));
    assert_eq!(parse_color("#+f+f+f"), rgba(15, 15, 15, 255));
    assert_eq!(parse_color("#12345"), rgba(128, 128, 128, 255));
}

#[test]
fn box_sums_hold_the_line_ends() {
    assert_eq!(box_window_sums(&vec![10, 20, 30], 1), vec![40, 60, 80]);
    assert_eq!(box_window_sums(&vec![10, 20, 30], 0), vec![10, 20, 30]);
    assert_eq!(box_window_sums(&vec![1, 2], 5), vec![16, 17]);
    assert_eq!(box_window_sums(&vec![], 3), Vec::<u32>::new());
    assert_eq!(box_window_sums(&vec![255; 4], 2), vec![1275; 4]);
}
