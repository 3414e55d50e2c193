use root_motion::assets::{
    AnimationClip, AnimationGraph, AnimationGraphNode, ClipStore, CurveStore, GraphStore,
    RootMotionData,
};
use root_motion::curve::Interpolation;
use root_motion::curve::RootMotionCurve;
use root_motion::driver::{
    bake_node, bake_root_motion_system, pass_complete_check, resolve_owner_graph, Owner,
    RootMotionNeedsBaking, StaticPose,
};
use root_motion::math::Vec3Fixed;
use root_motion::serial::{
    load_root_motion_data, resolve_curve, save_root_motion_data, SerializedRootMotionCurve,
};
use root_motion::skeleton::{get_cog, Skeleton, SkeletonNode};
use root_motion::{CogConfig, RootMotionBakeType, RootMotionError, SAMPLES_PER_SECOND};

fn v(x: i64, y: i64, z: i64) -> Vec3Fixed {
    Vec3Fixed { x, y, z }
}

fn node(parent: Option<usize>, name: Option<&str>, t: Vec3Fixed) -> SkeletonNode {
    SkeletonNode {
        parent,
        name: name.map(|s| s.to_string()),
        translation: t,
    }
}

fn skeleton(nodes: Vec<SkeletonNode>) -> Skeleton {
    Skeleton { nodes }
}

fn cfg() -> CogConfig {
    CogConfig::default()
}

/// A world with one owner (graph handle 1), one clip (handle 7) of the given
/// duration, and one graph node pending a center-of-gravity bake.
fn one_node_world(
    skel: Skeleton,
    clip_ref: Option<u64>,
    duration_ticks: u64,
) -> (Vec<Owner>, GraphStore, ClipStore, CurveStore, RootMotionNeedsBaking) {
    let owners = vec![Owner { skeleton: skel, graph: 1 }];
    let graph = AnimationGraph {
        nodes: vec![AnimationGraphNode {
            root_motion: Some(RootMotionData {
                bake_type: RootMotionBakeType::Cog,
                curve: None,
            }),
            clip: clip_ref,
        }],
    };
    let graphs = GraphStore { graphs: vec![(1, graph)] };
    let mut clips = ClipStore { clips: Vec::new() };
    clips.add(7, AnimationClip { duration_ticks });
    let curves = CurveStore::new();
    let flag = RootMotionNeedsBaking { set: true };
    (owners, graphs, clips, curves, flag)
}

#[test]
fn cog_zero_mass_nodes_error() {
    let s = skeleton(vec![
        node(None, None, v(0, 0, 0)),
        node(Some(0), Some("Spine"), v(1, 2, 3)),
    ]);
    let r = get_cog(&s, &cfg());
    assert!(matches!(r, Err(RootMotionError::ZeroMassNodes)));
}

#[test]
fn cog_single_descendant_is_its_position() {
    let s = skeleton(vec![
        node(None, None, v(100, 100, 100)),
        node(Some(0), Some("DEF-spine"), v(3, 4, 5)),
        node(Some(0), Some("Helper"), v(9, 9, 9)),
    ]);
    let r = get_cog(&s, &cfg()).unwrap();
    assert_eq!(r, v(3, 4, 5));
}

#[test]
fn cog_single_nested_descendant_composes_ancestors() {
    let s = skeleton(vec![
        node(None, None, v(50, 50, 50)),
        node(Some(0), Some("Helper"), v(1, 2, 3)),
        node(Some(1), Some("DEF-hand"), v(10, 0, 0)),
    ]);
    let r = get_cog(&s, &cfg()).unwrap();
    // The helper node is excluded from the average but still contributes its
    // translation to its descendant's position; the root's own does not.
    assert_eq!(r, v(11, 2, 3));
}

#[test]
fn cog_balanced_pair_averages_to_origin() {
    let s = skeleton(vec![
        node(None, None, v(0, 0, 0)),
        node(Some(0), None, v(1, 0, 0)),
        node(Some(0), None, v(-1, 0, 0)),
    ]);
    let r = get_cog(&s, &cfg()).unwrap();
    assert_eq!(r, v(0, 0, 0));
}

#[test]
fn cog_average_truncates_toward_zero() {
    let s = skeleton(vec![
        node(None, None, v(0, 0, 0)),
        node(Some(0), Some("DEF-a"), v(-3, 3, 1)),
        node(Some(0), Some("DEF-b"), v(-4, 4, 2)),
    ]);
    let r = get_cog(&s, &cfg()).unwrap();
    assert_eq!(r, v(-3, 3, 1));
}

#[test]
fn cog_unnamed_excluded_by_configuration() {
    let s = skeleton(vec![
        node(None, None, v(0, 0, 0)),
        node(Some(0), None, v(1, 0, 0)),
    ]);
    let c = CogConfig { unnamed_is_mass_bearing: false };
    let r = get_cog(&s, &c);
    assert!(matches!(r, Err(RootMotionError::ZeroMassNodes)));
}

#[test]
fn bake_pass_static_balanced_skeleton() {
    let skel = skeleton(vec![
        node(None, None, v(0, 0, 0)),
        node(Some(0), None, v(1, 0, 0)),
        node(Some(0), None, v(-1, 0, 0)),
    ]);
    // One second of clip at the fixed rate: ticks 0 through 60 inclusive.
    let (mut owners, mut graphs, clips, mut curves, mut flag) =
        one_node_world(skel, Some(7), SAMPLES_PER_SECOND);
    bake_root_motion_system(
        &mut owners,
        &mut graphs,
        &clips,
        &mut curves,
        &cfg(),
        &StaticPose {},
        &mut flag,
    );
    let rm = graphs.graphs[0].1.nodes[0].root_motion.unwrap();
    let handle = rm.curve.expect("node should be bound to a curve");
    let curve = curves.get_by_id(handle).expect("curve should be stored");
    assert_eq!(curve.timestamps.len(), 61);
    assert_eq!(curve.positions.len(), 61);
    for (k, t) in curve.timestamps.iter().enumerate() {
        assert_eq!(*t, k as u64);
    }
    for p in curve.positions.iter() {
        assert_eq!(*p, v(0, 0, 0));
    }
    assert!(matches!(curve.interpolation, Interpolation::Linear));
    assert!(!flag.set, "a fully baked pass clears the needs-baking flag");
    assert!(pass_complete_check(&owners, &graphs));
}

#[test]
fn bake_pass_is_idempotent() {
    let skel = skeleton(vec![node(None, None, v(0, 0, 0)), node(Some(0), None, v(2, 0, 0))]);
    let (mut owners, mut graphs, clips, mut curves, mut flag) = one_node_world(skel, Some(7), 10);
    bake_root_motion_system(
        &mut owners,
        &mut graphs,
        &clips,
        &mut curves,
        &cfg(),
        &StaticPose {},
        &mut flag,
    );
    let first = graphs.graphs[0].1.nodes[0].root_motion.unwrap().curve;
    assert!(first.is_some());
    assert_eq!(curves.entries.len(), 1);
    bake_root_motion_system(
        &mut owners,
        &mut graphs,
        &clips,
        &mut curves,
        &cfg(),
        &StaticPose {},
        &mut flag,
    );
    let second = graphs.graphs[0].1.nodes[0].root_motion.unwrap().curve;
    assert_eq!(first, second, "re-baking must not change the curve reference");
    assert_eq!(curves.entries.len(), 1, "re-baking must not store another curve");
    assert!(!flag.set);
}

#[test]
fn bake_pass_missing_clip_leaves_flag_set() {
    let skel = skeleton(vec![node(None, None, v(0, 0, 0)), node(Some(0), None, v(1, 1, 1))]);
    let pending = RootMotionData { bake_type: RootMotionBakeType::Cog, curve: None };
    let graph = AnimationGraph {
        nodes: vec![
            // This node's clip reference is absent from the store.
            AnimationGraphNode { root_motion: Some(pending), clip: Some(99) },
            // This one resolves and bakes.
            AnimationGraphNode { root_motion: Some(pending), clip: Some(7) },
        ],
    };
    let mut owners = vec![Owner { skeleton: skel, graph: 1 }];
    let mut graphs = GraphStore { graphs: vec![(1, graph)] };
    let mut clips = ClipStore { clips: Vec::new() };
    clips.add(7, AnimationClip { duration_ticks: 5 });
    let mut curves = CurveStore::new();
    let mut flag = RootMotionNeedsBaking { set: true };
    bake_root_motion_system(
        &mut owners,
        &mut graphs,
        &clips,
        &mut curves,
        &cfg(),
        &StaticPose {},
        &mut flag,
    );
    let nodes = &graphs.graphs[0].1.nodes;
    assert!(nodes[0].root_motion.unwrap().curve.is_none(), "unresolvable node is skipped");
    assert!(nodes[1].root_motion.unwrap().curve.is_some(), "resolvable node is baked");
    assert!(flag.set, "a skipped node leaves the needs-baking flag set");
    assert!(!pass_complete_check(&owners, &graphs));
}

#[test]
fn bake_pass_with_no_owners_is_complete() {
    let mut owners: Vec<Owner> = Vec::new();
    let mut graphs = GraphStore { graphs: Vec::new() };
    let clips = ClipStore { clips: Vec::new() };
    let mut curves = CurveStore::new();
    let mut flag = RootMotionNeedsBaking { set: true };
    bake_root_motion_system(
        &mut owners,
        &mut graphs,
        &clips,
        &mut curves,
        &cfg(),
        &StaticPose {},
        &mut flag,
    );
    assert!(!flag.set, "nothing pending means the pass is complete");
    assert!(curves.entries.is_empty());
}

#[test]
fn cog_root_alone_has_no_mass() {
    let s = skeleton(vec![node(None, None, v(5, 5, 5))]);
    let r = get_cog(&s, &cfg());
    assert!(matches!(r, Err(RootMotionError::ZeroMassNodes)));
}

#[test]
fn bake_node_missing_root_motion_data() {
    let mut nd = AnimationGraphNode { root_motion: None, clip: Some(7) };
    let mut skel = skeleton(vec![node(None, None, v(0, 0, 0)), node(Some(0), None, v(1, 0, 0))]);
    let mut clips = ClipStore { clips: Vec::new() };
    clips.add(7, AnimationClip { duration_ticks: 5 });
    let mut curves = CurveStore::new();
    let r = bake_node(&mut nd, &mut skel, &clips, &mut curves, &cfg(), &StaticPose {});
    assert!(matches!(r, Err(RootMotionError::MissingRootMotionData)));
}

#[test]
fn bake_node_missing_clip_reference() {
    let mut nd = AnimationGraphNode {
        root_motion: Some(RootMotionData { bake_type: RootMotionBakeType::Cog, curve: None }),
        clip: None,
    };
    let mut skel = skeleton(vec![node(None, None, v(0, 0, 0)), node(Some(0), None, v(1, 0, 0))]);
    let clips = ClipStore { clips: Vec::new() };
    let mut curves = CurveStore::new();
    let r = bake_node(&mut nd, &mut skel, &clips, &mut curves, &cfg(), &StaticPose {});
    assert!(matches!(r, Err(RootMotionError::MissingClip)));
}

#[test]
fn bake_node_root_bone_unimplemented() {
    let mut nd = AnimationGraphNode {
        root_motion: Some(RootMotionData {
            bake_type: RootMotionBakeType::RootBone,
            curve: None,
        }),
        clip: Some(7),
    };
    let mut skel = skeleton(vec![node(None, None, v(0, 0, 0)), node(Some(0), None, v(1, 0, 0))]);
    let mut clips = ClipStore { clips: Vec::new() };
    clips.add(7, AnimationClip { duration_ticks: 5 });
    let mut curves = CurveStore::new();
    let r = bake_node(&mut nd, &mut skel, &clips, &mut curves, &cfg(), &StaticPose {});
    assert!(matches!(
        r,
        Err(RootMotionError::UnimplementedBakeType(RootMotionBakeType::RootBone))
    ));
    assert!(nd.root_motion.unwrap().curve.is_none(), "the node stays eligible");
}

#[test]
fn bake_node_zero_mass_skeleton() {
    let mut nd = AnimationGraphNode {
        root_motion: Some(RootMotionData { bake_type: RootMotionBakeType::Cog, curve: None }),
        clip: Some(7),
    };
    let mut skel = skeleton(vec![
        node(None, None, v(0, 0, 0)),
        node(Some(0), Some("Control"), v(1, 0, 0)),
    ]);
    let mut clips = ClipStore { clips: Vec::new() };
    clips.add(7, AnimationClip { duration_ticks: 5 });
    let mut curves = CurveStore::new();
    let r = bake_node(&mut nd, &mut skel, &clips, &mut curves, &cfg(), &StaticPose {});
    assert!(matches!(r, Err(RootMotionError::ZeroMassNodes)));
}

#[test]
fn resolve_owner_graph_missing() {
    let owner = Owner {
        skeleton: skeleton(vec![node(None, None, v(0, 0, 0))]),
        graph: 3,
    };
    let graphs = GraphStore { graphs: Vec::new() };
    let r = resolve_owner_graph(&owner, &graphs);
    assert!(matches!(r, Err(RootMotionError::MissingGraph)));
}

fn sample_curve() -> RootMotionCurve {
    RootMotionCurve {
        timestamps: vec![0, 1, 2],
        positions: vec![v(0, 0, 0), v(1, 0, 0), v(2, 0, 0)],
        interpolation: Interpolation::Linear,
    }
}

#[test]
fn serialization_prefers_stable_path() {
    let mut store = CurveStore::new();
    let h = store.add(sample_curve(), Some("anims/walk.curve".to_string()));
    let data = RootMotionData { bake_type: RootMotionBakeType::Cog, curve: Some(h) };
    let ser = save_root_motion_data(&data, &store).unwrap();
    match &ser.curve {
        SerializedRootMotionCurve::AssetPath(p) => assert_eq!(p, "anims/walk.curve"),
        SerializedRootMotionCurve::AssetId(_) => panic!("path form expected"),
    }
}

#[test]
fn serialization_falls_back_to_id() {
    let mut store = CurveStore::new();
    let h = store.add(sample_curve(), None);
    let data = RootMotionData { bake_type: RootMotionBakeType::Cog, curve: Some(h) };
    let ser = save_root_motion_data(&data, &store).unwrap();
    assert!(matches!(ser.curve, SerializedRootMotionCurve::AssetId(id) if id == h));
    let back = resolve_curve(&ser.curve, &store).unwrap();
    assert_eq!(back, h);
}

#[test]
fn serialization_unbaked_data_has_no_form() {
    let store = CurveStore::new();
    let data = RootMotionData { bake_type: RootMotionBakeType::Cog, curve: None };
    let r = save_root_motion_data(&data, &store);
    assert!(matches!(r, Err(RootMotionError::MissingRootMotionData)));
}

#[test]
fn serialization_round_trip_across_reload() {
    let mut store = CurveStore::new();
    let h = store.add(sample_curve(), Some("anims/run.curve".to_string()));
    let data = RootMotionData { bake_type: RootMotionBakeType::Cog, curve: Some(h) };
    let ser = save_root_motion_data(&data, &store).unwrap();

    // A rebuilt store: the same path maps to a curve of equal content, but
    // the id differs because something else was loaded first.
    let mut reloaded = CurveStore::new();
    reloaded.add(
        RootMotionCurve {
            timestamps: vec![0],
            positions: vec![v(7, 7, 7)],
            interpolation: Interpolation::Linear,
        },
        None,
    );
    let h2 = reloaded.add(sample_curve(), Some("anims/run.curve".to_string()));
    assert_ne!(h, h2);

    let restored = load_root_motion_data(&ser, &reloaded).unwrap();
    assert!(matches!(restored.bake_type, RootMotionBakeType::Cog));
    assert_eq!(restored.curve, Some(h2));
    let original = store.get_by_id(h).unwrap();
    let resolved = reloaded.get_by_id(h2).unwrap();
    assert_eq!(resolved.timestamps, original.timestamps);
    assert_eq!(resolved.positions, original.positions);
}

#[test]
fn baked_curve_saved_by_path_survives_reload() {
    let skel = skeleton(vec![node(None, None, v(0, 0, 0)), node(Some(0), None, v(4, 0, 0))]);
    let (mut owners, mut graphs, clips, mut curves, mut flag) = one_node_world(skel, Some(7), 3);
    bake_root_motion_system(
        &mut owners,
        &mut graphs,
        &clips,
        &mut curves,
        &cfg(),
        &StaticPose {},
        &mut flag,
    );
    let rm = graphs.graphs[0].1.nodes[0].root_motion.unwrap();
    let h = rm.curve.expect("node should be baked");
    // Attach a stable path to the freshly baked curve, then persist by it.
    let attached = curves.set_path(h, "anims/idle.curve".to_string());
    assert!(attached);
    let data = RootMotionData { bake_type: RootMotionBakeType::Cog, curve: Some(h) };
    let ser = save_root_motion_data(&data, &curves).unwrap();
    assert!(matches!(&ser.curve, SerializedRootMotionCurve::AssetPath(p) if p == "anims/idle.curve"));

    // A rebuilt store holds the same curve content under the same path, with
    // another id.
    let mut reloaded = CurveStore::new();
    reloaded.add(sample_curve(), None);
    let baked = curves.get_by_id(h).unwrap();
    let h2 = reloaded.add(
        RootMotionCurve {
            timestamps: baked.timestamps.clone(),
            positions: baked.positions.clone(),
            interpolation: baked.interpolation,
        },
        Some("anims/idle.curve".to_string()),
    );
    let restored = load_root_motion_data(&ser, &reloaded).unwrap();
    assert_eq!(restored.curve, Some(h2));
    let resolved = reloaded.get_by_id(h2).unwrap();
    assert_eq!(resolved.timestamps, vec![0, 1, 2, 3]);
    assert_eq!(resolved.positions, vec![v(4, 0, 0); 4]);
}

#[test]
fn set_path_rejects_unknown_id_and_taken_path() {
    let mut store = CurveStore::new();
    let h = store.add(sample_curve(), Some("anims/walk.curve".to_string()));
    let h2 = store.add(sample_curve(), None);
    assert!(!store.set_path(99, "anims/free.curve".to_string()), "unknown id");
    assert!(!store.set_path(h2, "anims/walk.curve".to_string()), "path already taken");
    assert!(store.get_by_id(h2).is_some());
    let _ = h;
}

#[test]
fn resolution_failure_is_explicit() {
    let store = CurveStore::new();
    let by_path = SerializedRootMotionCurve::AssetPath("gone.curve".to_string());
    match resolve_curve(&by_path, &store) {
        Err(RootMotionError::AssetResolutionFailure(SerializedRootMotionCurve::AssetPath(p))) => {
            assert_eq!(p, "gone.curve");
        }
        other => panic!("unexpected outcome: {other:?}"),
    }
    let by_id = SerializedRootMotionCurve::AssetId(42);
    match resolve_curve(&by_id, &store) {
        Err(RootMotionError::AssetResolutionFailure(SerializedRootMotionCurve::AssetId(id))) => {
            assert_eq!(id, 42);
        }
        other => panic!("unexpected outcome: {other:?}"),
    }
}
