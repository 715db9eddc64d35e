use aether::graph::{BlendMode, CompositionGraph, Connection, Node, NodeKind};
use aether::refs::{AetherError, Ref, RefKind};
use aether::registry::{Asset, AssetKind, RefRegistry};
use aether::timeline::{Clip, Timeline, Track, TrackKind};

#[test]
fn test_ref_parsing_valid() {
    let r: Ref = "@v1".parse().unwrap();
    assert_eq!(r.kind, RefKind::Video);
    assert_eq!(r.id, 1);
    assert_eq!(r.to_string(), "@v1");

    let r: Ref = "@a42".parse().unwrap();
    assert_eq!(r.kind, RefKind::Audio);
    assert_eq!(r.id, 42);
    assert_eq!(r.to_string(), "@a42");

    let r: Ref = "@img999".parse().unwrap();
    assert_eq!(r.kind, RefKind::Image);
    assert_eq!(r.id, 999);
    assert_eq!(r.to_string(), "@img999");

    let r: Ref = "@anim10".parse().unwrap();
    assert_eq!(r.kind, RefKind::Animation);
    assert_eq!(r.id, 10);
    assert_eq!(r.to_string(), "@anim10");

    let r: Ref = "@g123".parse().unwrap();
    assert_eq!(r.kind, RefKind::Generated);
    assert_eq!(r.id, 123);
    assert_eq!(r.to_string(), "@g123");
}

#[test]
fn test_ref_parsing_invalid() {
    assert!(matches!("@v".parse::<Ref>(), Err(AetherError::InvalidRef(_, _))));
    assert!(matches!("v1".parse::<Ref>(), Err(AetherError::InvalidRef(_, _))));
    assert!(matches!("@v1a".parse::<Ref>(), Err(AetherError::InvalidRef(_, _))));
    assert!(matches!("@unknown123".parse::<Ref>(), Err(AetherError::InvalidRef(_, _))));
}

#[test]
fn ref_text_round_trips() {
    for text in ["@v7", "@a0", "@img12", "@anim3", "@g4294967295"] {
        let r = Ref::parse(text).unwrap();
        assert_eq!(r.to_string(), text);
        assert_eq!(Ref::parse(&r.to_string()), Ok(r));
    }
}

#[test]
fn ref_overflowing_id_is_refused() {
    assert!(matches!(Ref::parse("@v4294967296"), Err(AetherError::InvalidRef(_, _))));
}

#[test]
fn test_ref_registry_allocation() {
    let mut registry = RefRegistry::new();
    let r1 = registry.allocate(RefKind::Video);
    let r2 = registry.allocate(RefKind::Video);
    let r3 = registry.allocate(RefKind::Audio);
    assert_eq!(r1, Ref { kind: RefKind::Video, id: 1 });
    assert_eq!(r2, Ref { kind: RefKind::Video, id: 2 });
    assert_eq!(r3, Ref { kind: RefKind::Audio, id: 1 });
}

#[test]
fn test_ref_registry_register_and_resolve() {
    let mut registry = RefRegistry::new();
    let r = registry.allocate(RefKind::Video);
    let asset = Asset {
        r,
        kind: AssetKind::Video,
        path: "test.mp4".to_string(),
        hash: "blake3_hash_here".to_string(),
        metadata: "{\"duration\":10.0}".to_string(),
    };

    assert_eq!(registry.resolve(&r), Err(AetherError::RefNotFound(r)));
    assert_eq!(registry.register(r, asset.clone()), Ok(()));
    assert_eq!(registry.register(r, asset.clone()), Err(AetherError::RefAlreadyExists(r)));
    assert_eq!(registry.resolve(&r), Ok(asset));
    assert!(registry.free(&r));
    assert_eq!(registry.resolve(&r), Err(AetherError::RefNotFound(r)));
}

#[test]
fn registry_free_of_unknown_ref_is_false() {
    let mut registry = RefRegistry::new();
    let r = Ref { kind: RefKind::Image, id: 5 };
    assert!(!registry.free(&r));
    assert_eq!(registry.list_assets().len(), 0);
}

#[test]
fn test_composition_graph_dag() {
    let mut graph = CompositionGraph::new();
    let r1 = "@v1".parse::<Ref>().unwrap();
    let r2 = "@v2".parse::<Ref>().unwrap();

    let n1 = Node { id: 1, kind: NodeKind::Source(r1) };
    let n2 = Node { id: 2, kind: NodeKind::Source(r2) };
    let n3 = Node { id: 3, kind: NodeKind::Blend { mode: BlendMode::Normal, opacity_bits: 1.0f32.to_bits() } };
    let n4 = Node { id: 4, kind: NodeKind::Output };

    graph.add_node(n1);
    graph.add_node(n2);
    graph.add_node(n3);
    graph.add_node(n4);

    assert_eq!(graph.connect(Connection { from_node: 1, from_port: 0, to_node: 3, to_port: 0 }), Ok(()));
    assert_eq!(graph.connect(Connection { from_node: 2, from_port: 0, to_node: 3, to_port: 1 }), Ok(()));
    assert_eq!(graph.connect(Connection { from_node: 3, from_port: 0, to_node: 4, to_port: 0 }), Ok(()));

    assert!(graph.connect(Connection { from_node: 4, from_port: 0, to_node: 1, to_port: 0 }).is_err());

    let sorted = graph.topological_sort().unwrap();
    let pos1 = sorted.iter().position(|&x| x == 1).unwrap();
    let pos2 = sorted.iter().position(|&x| x == 2).unwrap();
    let pos3 = sorted.iter().position(|&x| x == 3).unwrap();
    let pos4 = sorted.iter().position(|&x| x == 4).unwrap();

    assert!(pos1 < pos3);
    assert!(pos2 < pos3);
    assert!(pos3 < pos4);

    graph.remove_node(3);
    assert!(!graph.contains_node(3));
    assert!(graph.connections().is_empty());
}

#[test]
fn graph_refuses_connection_to_unknown_node() {
    let mut graph = CompositionGraph::new();
    graph.add_node(Node { id: 1, kind: NodeKind::Output });
    assert!(matches!(
        graph.connect(Connection { from_node: 1, from_port: 0, to_node: 9, to_port: 0 }),
        Err(AetherError::OperationFailed(_))
    ));
    assert!(graph.connections().is_empty());
}

#[test]
fn timeline_holds_tracks_of_clips() {
    let clip = Clip {
        asset_ref: Ref { kind: RefKind::Video, id: 1 },
        in_point_ms: 0,
        out_point_ms: 5000,
        track_offset_ms: 1000,
        transition: None,
    };
    let timeline = Timeline {
        tracks: vec![Track { name: "V1".to_string(), kind: TrackKind::Video, clips: vec![clip] }],
    };
    assert_eq!(timeline.tracks[0].clips[0], clip);
    assert_eq!(timeline.tracks[0].kind, TrackKind::Video);
}

#[test]
fn reference_text_is_at_prefix_and_digits() {
    assert_eq!("@v007".parse::<Ref>(), Ok(Ref { kind: RefKind::Video, id: 7 }));
    assert_eq!("@anim0".parse::<Ref>(), Ok(Ref { kind: RefKind::Animation, id: 0 }));
    assert_eq!("@g4294967295".parse::<Ref>(), Ok(Ref { kind: RefKind::Generated, id: 4294967295 }));
    for bad in ["@V1", "@v-1", "@v4294967296", "@img", "@x1", "@ v1"] {
        match bad.parse::<Ref>() {
            Err(AetherError::InvalidRef(text, _)) => assert_eq!(text, bad),
            other => panic!("unexpected result {:?}", other),
        }
    }
}
