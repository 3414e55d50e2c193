//! The baking driver: for each owner's animation graph it samples each
//! pending node's clip at the fixed rate, builds an immutable curve from the
//! center-of-gravity samples, stores it, binds it to the node, and clears
//! the process-wide needs-baking flag once a full pass finds nothing left.

use vstd::prelude::*;
use crate::{CogConfig, RootMotionBakeType, RootMotionError, MAX_CLIP_TICKS, MAX_GRAPH_NODES,
    MAX_OWNERS};
use crate::assets::{AnimationGraph, AnimationGraphNode, ClipStore, CurveStore, GraphStore,
    RootMotionData};
use crate::curve::{Interpolation, RootMotionCurve};
use crate::math::Vec3Fixed;
use crate::skeleton::{cog_point, get_cog, lemma_mass_count_to_bounds, lemma_same_shape_mass_count,
    lemma_same_shape_trans, mass_count, same_shape, Skeleton};

verus! {

/// The pose-evaluation capability the driver consumes: scrubbing a clip to a
/// time and applying the resulting pose to the skeleton's transforms. The
/// clip/pose machinery itself is an external collaborator; the driver only
/// relies on posing being a function of clip, time and current state that
/// preserves the skeleton's tree structure and names.
pub trait PoseEvaluator: Sized {
    /// The skeleton that scrubbing `clip` to `time` leaves behind, given the
    /// skeleton's current state.
    spec fn posed(&self, clip: u64, time: u64, skel: Skeleton) -> Skeleton;

    /// Scrubs `clip` to `time` and applies the resulting pose in place.
    fn apply_pose(&self, clip: u64, time: u64, skel: &mut Skeleton)
        requires
            old(skel).wf(),
        ensures
            *final(skel) == self.posed(clip, time, *old(skel)),
            final(skel).wf(),
            same_shape(*old(skel), *final(skel)),
    ;
}

/// A pose evaluator that moves nothing: every pose is the bind pose. Useful
/// for skeletons that are static over the clip.
#[derive(Debug, Clone, Copy)]
pub struct StaticPose {}

impl PoseEvaluator for StaticPose {
    open spec fn posed(&self, clip: u64, time: u64, skel: Skeleton) -> Skeleton {
        skel
    }

    fn apply_pose(&self, clip: u64, time: u64, skel: &mut Skeleton) {
    }
}

/// The skeleton state after the driver has scrubbed `clip` to each tick
/// `0, 1, ..., k` in order, starting from `skel0`.
pub open spec fn sampled_skel<E: PoseEvaluator>(ev: E, clip: u64, skel0: Skeleton, k: int) -> Skeleton
    decreases k,
{
    if k <= 0 {
        ev.posed(clip, 0, skel0)
    } else {
        ev.posed(clip, k as u64, sampled_skel(ev, clip, skel0, k - 1))
    }
}

/// Samples `clip` at every tick from 0 through `duration` inclusive:
/// scrub, apply the pose, read the center of gravity, append. Returns the
/// accumulated timestamps and positions, exactly one pair per tick.
fn sample_clip<E: PoseEvaluator>(
    skel: &mut Skeleton,
    clip_id: u64,
    duration: u64,
    cfg: &CogConfig,
    ev: &E,
) -> (r: (Vec<u64>, Vec<Vec3Fixed>))
    requires
        old(skel).wf(),
        mass_count(*old(skel), *cfg) > 0,
        duration <= MAX_CLIP_TICKS,
    ensures
        r.0@.len() == duration + 1,
        r.1@.len() == duration + 1,
        forall|k: int| 0 <= k <= duration ==> #[trigger] r.0@[k] == k,
        forall|k: int|
            0 <= k <= duration ==> (#[trigger] r.1@[k])@ == cog_point(
                sampled_skel(*ev, clip_id, *old(skel), k),
                *cfg,
            ),
        final(skel).wf(),
        same_shape(*old(skel), *final(skel)),
        *final(skel) == sampled_skel(*ev, clip_id, *old(skel), duration as int),
{
    let mut timestamps: Vec<u64> = Vec::new();
    let mut positions: Vec<Vec3Fixed> = Vec::new();
    let mut t: u64 = 0;
    while t <= duration
        invariant
            skel.wf(),
            same_shape(*old(skel), *skel),
            mass_count(*old(skel), *cfg) > 0,
            duration <= MAX_CLIP_TICKS,
            t <= duration + 1,
            timestamps@.len() == t as int,
            positions@.len() == t as int,
            forall|k: int| 0 <= k < t ==> #[trigger] timestamps@[k] == k,
            forall|k: int|
                0 <= k < t ==> (#[trigger] positions@[k])@ == cog_point(
                    sampled_skel(*ev, clip_id, *old(skel), k),
                    *cfg,
                ),
            t == 0 ==> *skel == *old(skel),
            t > 0 ==> *skel == sampled_skel(*ev, clip_id, *old(skel), t - 1),
        decreases duration + 1 - t,
    {
        let ghost prev = *skel;
        ev.apply_pose(clip_id, t, skel);
        proof {
            lemma_same_shape_trans(*old(skel), prev, *skel);
            lemma_same_shape_mass_count(*old(skel), *skel, *cfg, skel.nodes.len() as int);
            assert(*skel == sampled_skel(*ev, clip_id, *old(skel), t as int));
        }
        let p = match get_cog(skel, cfg) {
            Ok(p) => p,
            Err(_) => {
                proof {
                    assert(false);
                }
                vstd::pervasive::unreached()
            },
        };
        timestamps.push(t);
        positions.push(p);
        t = t + 1;
    }
    (timestamps, positions)
}

/// A node still awaiting a bake: it takes part in root-motion baking and no
/// curve has been bound to it yet.
pub open spec fn node_eligible(node: AnimationGraphNode) -> bool {
    node.root_motion matches Some(rm) && rm.curve is None
}

/// The node references a clip that the store resolves.
pub open spec fn clip_resolvable(node: AnimationGraphNode, clips: ClipStore) -> bool {
    node.clip matches Some(c) && clips.has_id(c)
}

/// The second store holds everything the first did, unchanged, possibly
/// followed by new entries; handles only grow.
pub open spec fn store_extends(a: CurveStore, b: CurveStore) -> bool {
    &&& a.entries.len() <= b.entries.len()
    &&& forall|i: int| 0 <= i < a.entries.len() ==> #[trigger] b.entries[i] == a.entries[i]
    &&& a.next_id <= b.next_id
}

pub proof fn lemma_store_extends_trans(a: CurveStore, b: CurveStore, c: CurveStore)
    requires
        store_extends(a, b),
        store_extends(b, c),
    ensures
        store_extends(a, c),
{
    assert forall|i: int| 0 <= i < a.entries.len() implies #[trigger] c.entries[i]
        == a.entries[i] by {
        assert(b.entries[i] == a.entries[i]);
        assert(c.entries[i] == b.entries[i]);
    }
}

/// Extending a store preserves every handle it resolved, and what it
/// resolved the handle to.
pub proof fn lemma_store_extends_preserves_entry(a: CurveStore, b: CurveStore, h: u64)
    requires
        a.wf(),
        b.wf(),
        store_extends(a, b),
        a.has_id(h),
    ensures
        b.has_id(h),
        b.entry_of_id(h) == a.entry_of_id(h),
{
    let i = a.idx_of_id(h);
    assert(0 <= i < a.entries.len() && a.entries[i].id == h);
    assert(b.entries[i] == a.entries[i]);
    assert(b.has_id(h));
    let j = b.idx_of_id(h);
    assert(0 <= j < b.entries.len() && b.entries[j].id == h);
    b.lemma_id_unique(i, j);
}

/// The curve `c` is exactly what baking `clip_id` over `duration` ticks
/// from skeleton state `skel0` produces: one keyframe per tick, each
/// position the center of gravity of the successively posed skeleton.
pub open spec fn baked_curve_for<E: PoseEvaluator>(
    c: RootMotionCurve,
    ev: E,
    cfg: CogConfig,
    clip_id: u64,
    duration: u64,
    skel0: Skeleton,
) -> bool {
    &&& c.wf()
    &&& c.covers(duration)
    &&& c.interpolation is Linear
    &&& forall|k: int|
        0 <= k <= duration ==> (#[trigger] c.positions@[k])@ == cog_point(
            sampled_skel(ev, clip_id, skel0, k),
            cfg,
        )
}

/// Shape of every produced curve: as many timestamps as positions, the
/// first timestamp 0, the last within one sample step of the clip's
/// duration, and each timestamp greater than the one before by exactly the
/// fixed sample step.
pub proof fn lemma_baked_curve_shape<E: PoseEvaluator>(
    c: RootMotionCurve,
    ev: E,
    cfg: CogConfig,
    clip_id: u64,
    duration: u64,
    skel0: Skeleton,
)
    requires
        baked_curve_for(c, ev, cfg, clip_id, duration, skel0),
    ensures
        c.timestamps@.len() == c.positions@.len(),
        c.timestamps@.len() == duration + 1,
        c.timestamps@[0] == 0,
        c.timestamps@[duration as int] + 1 >= duration,
        forall|k: int| 0 <= k < duration ==> #[trigger] c.timestamps@[k + 1] == c.timestamps@[k]
            + 1,
{
    assert forall|k: int| 0 <= k < duration implies #[trigger] c.timestamps@[k + 1]
        == c.timestamps@[k] + 1 by {
        assert(c.timestamps@[k] == k);
        assert(c.timestamps@[k + 1] == k + 1);
    }
}

/// Bake-once: a pass never touches a node whose curve is already populated,
/// so re-running the pass on a baked node leaves its curve reference
/// unchanged.
pub proof fn lemma_bake_idempotent(a: AnimationGraph, b: AnimationGraph, j: int)
    requires
        graph_evolved(a, b),
        0 <= j < a.nodes.len(),
        a.nodes[j].root_motion matches Some(rm) && rm.curve is Some,
    ensures
        b.nodes[j] == a.nodes[j],
{
    assert(node_evolved(a.nodes[j], b.nodes[j]));
}

/// Bakes one graph node, or reports why it cannot be baked. Soft failures
/// leave every input exactly as it was, so the node stays eligible for a
/// later pass. An already-baked node is left untouched and its existing
/// curve handle returned.
pub fn bake_node<E: PoseEvaluator>(
    node: &mut AnimationGraphNode,
    skel: &mut Skeleton,
    clips: &ClipStore,
    curves: &mut CurveStore,
    cfg: &CogConfig,
    ev: &E,
) -> (r: Result<u64, RootMotionError>)
    requires
        old(skel).wf(),
        clips.wf(),
        old(curves).wf(),
        old(curves).next_id < u64::MAX,
    ensures
        final(skel).wf(),
        same_shape(*old(skel), *final(skel)),
        final(curves).wf(),
        store_extends(*old(curves), *final(curves)),
        final(curves).next_id <= old(curves).next_id + 1,
        r is Err ==> (*final(node) == *old(node) && *final(skel) == *old(skel) && *final(curves)
            == *old(curves)),
        old(node).root_motion is None ==> (r matches Err(e) && e is MissingRootMotionData),
        old(node).root_motion matches Some(rm) ==> (rm.curve matches Some(h) ==> (r matches Ok(h2)
            && h2 == h && *final(node) == *old(node) && *final(skel) == *old(skel)
            && *final(curves) == *old(curves))),
        node_eligible(*old(node)) && !clip_resolvable(*old(node), *clips) ==> (r matches Err(e)
            && e is MissingClip),
        node_eligible(*old(node)) && clip_resolvable(*old(node), *clips) && old(
            node,
        ).root_motion->Some_0.bake_type is RootBone ==> (r matches Err(e) && (
        e matches RootMotionError::UnimplementedBakeType(t) && t is RootBone)),
        node_eligible(*old(node)) && clip_resolvable(*old(node), *clips) && old(
            node,
        ).root_motion->Some_0.bake_type is Cog && mass_count(*old(skel), *cfg) == 0 ==> (
        r matches Err(e) && e is ZeroMassNodes),
        node_eligible(*old(node)) && clip_resolvable(*old(node), *clips) && old(
            node,
        ).root_motion->Some_0.bake_type is Cog && mass_count(*old(skel), *cfg) > 0 ==> (
        r matches Ok(id) && {
            let cid = old(node).clip->Some_0;
            let duration = clips.spec_get(cid)->Some_0.duration_ticks;
            &&& id == old(curves).next_id
            &&& final(node).clip == old(node).clip
            &&& final(node).root_motion matches Some(rm2) && rm2.bake_type == old(
                node,
            ).root_motion->Some_0.bake_type && rm2.curve == Some(id)
            &&& final(curves).has_id(id)
            &&& final(curves).entry_of_id(id).curve.wf()
            &&& baked_curve_for(final(curves).entry_of_id(id).curve, *ev, *cfg, cid, duration,
                *old(skel))
            &&& final(curves).next_id == old(curves).next_id + 1
            &&& *final(skel) == sampled_skel(*ev, cid, *old(skel), duration as int)
        }),
{
    let rm = match &node.root_motion {
        None => {
            return Err(RootMotionError::MissingRootMotionData);
        },
        Some(rm) => *rm,
    };
    if let Some(h) = rm.curve {
        return Ok(h);
    }
    let cid = match node.clip {
        None => {
            return Err(RootMotionError::MissingClip);
        },
        Some(c) => c,
    };
    let clip = match clips.get(cid) {
        None => {
            return Err(RootMotionError::MissingClip);
        },
        Some(cl) => cl,
    };
    match rm.bake_type {
        RootMotionBakeType::RootBone => {
            return Err(RootMotionError::UnimplementedBakeType(RootMotionBakeType::RootBone));
        },
        RootMotionBakeType::Cog => {},
    }
    proof {
        lemma_mass_count_to_bounds(*skel, *cfg, skel.nodes.len() as int);
    }
    if let Err(_) = get_cog(skel, cfg) {
        return Err(RootMotionError::ZeroMassNodes);
    }
    let (timestamps, positions) = sample_clip(skel, cid, clip.duration_ticks, cfg, ev);
    let curve = RootMotionCurve::new(timestamps, positions, Interpolation::Linear);
    let id = curves.add(curve, None);
    proof {
        let n = curves.entries.len() - 1;
        assert(curves.entries[n].id == id);
        let m = curves.idx_of_id(id);
        assert(0 <= m < curves.entries.len() && curves.entries[m].id == id);
        curves.lemma_id_unique(n, m);
    }
    node.root_motion = Some(RootMotionData { bake_type: rm.bake_type, curve: Some(id) });
    Ok(id)
}

/// How one pass may change a node: the clip reference and the presence and
/// bake type of its root-motion data never change, and a node whose curve
/// was already populated is left exactly as it was (bake-once).
pub open spec fn node_evolved(a: AnimationGraphNode, b: AnimationGraphNode) -> bool {
    &&& b.clip == a.clip
    &&& (a.root_motion is None ==> b == a)
    &&& (a.root_motion matches Some(ra) ==> (b.root_motion matches Some(rb) && rb.bake_type
        == ra.bake_type && (ra.curve is Some ==> b == a)))
}

pub open spec fn graph_evolved(a: AnimationGraph, b: AnimationGraph) -> bool {
    &&& a.nodes.len() == b.nodes.len()
    &&& forall|j: int| 0 <= j < a.nodes.len() ==> node_evolved(a.nodes[j], #[trigger] b.nodes[j])
}

pub proof fn lemma_graph_evolved_trans(a: AnimationGraph, b: AnimationGraph, c: AnimationGraph)
    requires
        graph_evolved(a, b),
        graph_evolved(b, c),
    ensures
        graph_evolved(a, c),
{
    assert forall|j: int| 0 <= j < a.nodes.len() implies node_evolved(
        a.nodes[j],
        #[trigger] c.nodes[j],
    ) by {
        assert(node_evolved(a.nodes[j], b.nodes[j]));
        assert(node_evolved(b.nodes[j], c.nodes[j]));
    }
}

/// A node the driver can actually bake against this skeleton: pending, with
/// a resolvable clip, of center-of-gravity type, and a skeleton that has at
/// least one mass-bearing descendant.
pub open spec fn node_bakeable(
    nd: AnimationGraphNode,
    clips: ClipStore,
    skel: Skeleton,
    cfg: CogConfig,
) -> bool {
    &&& node_eligible(nd)
    &&& clip_resolvable(nd, clips)
    &&& nd.root_motion->Some_0.bake_type is Cog
    &&& mass_count(skel, cfg) > 0
}

/// The clip duration a node's bake samples over.
pub open spec fn node_clip_duration(nd: AnimationGraphNode, clips: ClipStore) -> u64 {
    clips.spec_get(nd.clip->Some_0)->Some_0.duration_ticks
}

/// The skeleton state after the driver has worked through the first `j`
/// nodes of a graph: each node it can bake at that point advances the
/// skeleton by one full clip sampling, and every other node leaves it
/// untouched.
pub open spec fn bake_fold_skel<E: PoseEvaluator>(
    ev: E,
    cfg: CogConfig,
    clips: ClipStore,
    nodes: Seq<AnimationGraphNode>,
    skel0: Skeleton,
    j: int,
) -> Skeleton
    decreases j,
{
    if j <= 0 {
        skel0
    } else {
        let prev = bake_fold_skel(ev, cfg, clips, nodes, skel0, j - 1);
        if node_bakeable(nodes[j - 1], clips, prev, cfg) {
            sampled_skel(
                ev,
                nodes[j - 1].clip->Some_0,
                prev,
                node_clip_duration(nodes[j - 1], clips) as int,
            )
        } else {
            prev
        }
    }
}

/// A node that needs no bake stays exactly as it is under any evolution.
pub proof fn lemma_evolved_keeps_settled(a: AnimationGraphNode, b: AnimationGraphNode)
    requires
        node_evolved(a, b),
        !node_eligible(a),
    ensures
        !node_eligible(b),
        b == a,
{
}

/// The node's curve handle resolves in the store to a curve that some
/// skeleton of the owner's shape bakes to for the node's clip.
pub open spec fn curve_bound_in<E: PoseEvaluator>(
    nd: AnimationGraphNode,
    curves: CurveStore,
    clips: ClipStore,
    cfg: CogConfig,
    ev: E,
    shape: Skeleton,
) -> bool {
    nd.root_motion matches Some(rm) && (rm.curve matches Some(h) && {
        &&& curves.has_id(h)
        &&& clip_resolvable(nd, clips)
        &&& exists|s0: Skeleton|
            #[trigger] baked_curve_for(
                curves.entry_of_id(h).curve,
                ev,
                cfg,
                nd.clip->Some_0,
                clips.spec_get(nd.clip->Some_0)->Some_0.duration_ticks,
                s0,
            ) && s0.wf() && same_shape(shape, s0)
    })
}

pub proof fn lemma_curve_bound_extends<E: PoseEvaluator>(
    nd: AnimationGraphNode,
    a: CurveStore,
    b: CurveStore,
    clips: ClipStore,
    cfg: CogConfig,
    ev: E,
    shape: Skeleton,
)
    requires
        a.wf(),
        b.wf(),
        store_extends(a, b),
        curve_bound_in(nd, a, clips, cfg, ev, shape),
    ensures
        curve_bound_in(nd, b, clips, cfg, ev, shape),
{
    let h = nd.root_motion->Some_0.curve->Some_0;
    lemma_store_extends_preserves_entry(a, b, h);
    let s0 = choose|s0: Skeleton|
        #[trigger] baked_curve_for(
            a.entry_of_id(h).curve,
            ev,
            cfg,
            nd.clip->Some_0,
            clips.spec_get(nd.clip->Some_0)->Some_0.duration_ticks,
            s0,
        ) && s0.wf() && same_shape(shape, s0);
    assert(baked_curve_for(
        b.entry_of_id(h).curve,
        ev,
        cfg,
        nd.clip->Some_0,
        clips.spec_get(nd.clip->Some_0)->Some_0.duration_ticks,
        s0,
    ));
}

/// A curve bound relative to one skeleton's shape is bound relative to any
/// skeleton of the same shape.
pub proof fn lemma_curve_bound_shape<E: PoseEvaluator>(
    nd: AnimationGraphNode,
    curves: CurveStore,
    clips: ClipStore,
    cfg: CogConfig,
    ev: E,
    a: Skeleton,
    b: Skeleton,
)
    requires
        same_shape(a, b),
        curve_bound_in(nd, curves, clips, cfg, ev, b),
    ensures
        curve_bound_in(nd, curves, clips, cfg, ev, a),
{
    let h = nd.root_motion->Some_0.curve->Some_0;
    let s0 = choose|s0: Skeleton|
        #[trigger] baked_curve_for(
            curves.entry_of_id(h).curve,
            ev,
            cfg,
            nd.clip->Some_0,
            clips.spec_get(nd.clip->Some_0)->Some_0.duration_ticks,
            s0,
        ) && s0.wf() && same_shape(b, s0);
    lemma_same_shape_trans(a, b, s0);
    assert(baked_curve_for(
        curves.entry_of_id(h).curve,
        ev,
        cfg,
        nd.clip->Some_0,
        clips.spec_get(nd.clip->Some_0)->Some_0.duration_ticks,
        s0,
    ));
}

/// Bakes every pending node of one graph against one owner's skeleton.
/// Nodes that cannot be baked are skipped softly, entirely untouched, and
/// stay eligible; nodes already baked are left exactly as they were. The
/// skeleton threads through the nodes in order: `bake_fold_skel` names the
/// state each node's samples start from, and the contract pins every baked
/// curve to it.
pub fn bake_graph<E: PoseEvaluator>(
    skel: &mut Skeleton,
    graph: &mut AnimationGraph,
    clips: &ClipStore,
    curves: &mut CurveStore,
    cfg: &CogConfig,
    ev: &E,
)
    requires
        old(skel).wf(),
        clips.wf(),
        old(curves).wf(),
        old(curves).next_id + old(graph).nodes.len() <= u64::MAX,
    ensures
        final(skel).wf(),
        same_shape(*old(skel), *final(skel)),
        final(curves).wf(),
        store_extends(*old(curves), *final(curves)),
        final(curves).next_id <= old(curves).next_id + old(graph).nodes.len(),
        graph_evolved(*old(graph), *final(graph)),
        forall|j: int|
            0 <= j < old(graph).nodes.len() ==> ((node_eligible(old(graph).nodes[j])
                && !node_eligible(#[trigger] final(graph).nodes[j])) ==> curve_bound_in(
                final(graph).nodes[j],
                *final(curves),
                *clips,
                *cfg,
                *ev,
                *old(skel),
            )),
        forall|j: int|
            0 <= j < old(graph).nodes.len() ==> (node_bakeable(
                old(graph).nodes[j],
                *clips,
                *old(skel),
                *cfg,
            ) ==> !node_eligible(#[trigger] final(graph).nodes[j])),
        forall|j: int|
            0 <= j < old(graph).nodes.len() ==> ((node_eligible(old(graph).nodes[j])
                && !node_eligible(#[trigger] final(graph).nodes[j])) ==> (clip_resolvable(
                old(graph).nodes[j],
                *clips,
            ) && old(graph).nodes[j].root_motion->Some_0.bake_type is Cog && mass_count(
                *old(skel),
                *cfg,
            ) > 0)),
        forall|j: int|
            0 <= j < old(graph).nodes.len() ==> ((node_eligible(old(graph).nodes[j])
                && !node_bakeable(old(graph).nodes[j], *clips, *old(skel), *cfg))
                ==> #[trigger] final(graph).nodes[j] == old(graph).nodes[j]),
        *final(skel) == bake_fold_skel(
            *ev,
            *cfg,
            *clips,
            old(graph).nodes@,
            *old(skel),
            old(graph).nodes.len() as int,
        ),
        forall|j: int|
            0 <= j < old(graph).nodes.len() ==> (node_bakeable(
                old(graph).nodes[j],
                *clips,
                bake_fold_skel(*ev, *cfg, *clips, old(graph).nodes@, *old(skel), j),
                *cfg,
            ) ==> ((#[trigger] final(graph).nodes[j]).root_motion->Some_0.curve matches Some(h)
                && final(curves).has_id(h) && baked_curve_for(
                final(curves).entry_of_id(h).curve,
                *ev,
                *cfg,
                old(graph).nodes[j].clip->Some_0,
                node_clip_duration(old(graph).nodes[j], *clips),
                bake_fold_skel(*ev, *cfg, *clips, old(graph).nodes@, *old(skel), j),
            ))),
        forall|j: int|
            0 <= j < old(graph).nodes.len() ==> (!node_bakeable(
                old(graph).nodes[j],
                *clips,
                bake_fold_skel(*ev, *cfg, *clips, old(graph).nodes@, *old(skel), j),
                *cfg,
            ) ==> #[trigger] final(graph).nodes[j] == old(graph).nodes[j]),
{
    let n = graph.nodes.len();
    let mut j: usize = 0;
    while j < n
        invariant
            skel.wf(),
            same_shape(*old(skel), *skel),
            clips.wf(),
            curves.wf(),
            n == graph.nodes.len(),
            graph.nodes.len() == old(graph).nodes.len(),
            j <= n,
            curves.next_id <= old(curves).next_id + j,
            old(curves).next_id + n <= u64::MAX,
            store_extends(*old(curves), *curves),
            forall|k: int| j <= k < n ==> #[trigger] graph.nodes[k] == old(graph).nodes[k],
            forall|k: int|
                0 <= k < j ==> node_evolved(old(graph).nodes[k], #[trigger] graph.nodes[k]),
            forall|k: int|
                0 <= k < j ==> ((node_eligible(old(graph).nodes[k]) && !node_eligible(
                    #[trigger] graph.nodes[k],
                )) ==> curve_bound_in(graph.nodes[k], *curves, *clips, *cfg, *ev, *old(skel))),
            forall|k: int|
                0 <= k < j ==> (node_bakeable(old(graph).nodes[k], *clips, *old(skel), *cfg)
                    ==> !node_eligible(#[trigger] graph.nodes[k])),
            forall|k: int|
                0 <= k < j ==> ((node_eligible(old(graph).nodes[k]) && !node_eligible(
                    #[trigger] graph.nodes[k],
                )) ==> (clip_resolvable(old(graph).nodes[k], *clips) && old(
                    graph,
                ).nodes[k].root_motion->Some_0.bake_type is Cog && mass_count(
                    *old(skel),
                    *cfg,
                ) > 0)),
            forall|k: int|
                0 <= k < j ==> ((node_eligible(old(graph).nodes[k]) && !node_bakeable(
                    old(graph).nodes[k],
                    *clips,
                    *old(skel),
                    *cfg,
                )) ==> #[trigger] graph.nodes[k] == old(graph).nodes[k]),
            *skel == bake_fold_skel(
                *ev,
                *cfg,
                *clips,
                old(graph).nodes@,
                *old(skel),
                j as int,
            ),
            forall|k: int|
                0 <= k < j ==> (node_bakeable(
                    old(graph).nodes[k],
                    *clips,
                    bake_fold_skel(*ev, *cfg, *clips, old(graph).nodes@, *old(skel), k),
                    *cfg,
                ) ==> ((#[trigger] graph.nodes[k]).root_motion->Some_0.curve matches Some(h)
                    && curves.has_id(h) && baked_curve_for(
                    curves.entry_of_id(h).curve,
                    *ev,
                    *cfg,
                    old(graph).nodes[k].clip->Some_0,
                    node_clip_duration(old(graph).nodes[k], *clips),
                    bake_fold_skel(*ev, *cfg, *clips, old(graph).nodes@, *old(skel), k),
                ))),
            forall|k: int|
                0 <= k < j ==> (!node_bakeable(
                    old(graph).nodes[k],
                    *clips,
                    bake_fold_skel(*ev, *cfg, *clips, old(graph).nodes@, *old(skel), k),
                    *cfg,
                ) ==> #[trigger] graph.nodes[k] == old(graph).nodes[k]),
        decreases n - j,
    {
        let ghost pre_curves = *curves;
        let ghost pre_skel = *skel;
        let ghost pre_nodes = graph.nodes@;
        let mut nd = graph.nodes.remove(j);
        let res = bake_node(&mut nd, skel, clips, curves, cfg, ev);
        graph.nodes.insert(j, nd);
        proof {
            assert(graph.nodes@ =~= pre_nodes.update(j as int, nd));
            lemma_same_shape_trans(*old(skel), pre_skel, *skel);
            lemma_store_extends_trans(*old(curves), pre_curves, *curves);
            assert forall|k: int|
                0 <= k < j && (node_eligible(old(graph).nodes[k]) && !node_eligible(
                    #[trigger] graph.nodes[k],
                )) implies curve_bound_in(
                graph.nodes[k],
                *curves,
                *clips,
                *cfg,
                *ev,
                *old(skel),
            ) by {
                assert(graph.nodes[k] == pre_nodes[k]);
                lemma_curve_bound_extends(
                    graph.nodes[k],
                    pre_curves,
                    *curves,
                    *clips,
                    *cfg,
                    *ev,
                    *old(skel),
                );
            }
            lemma_mass_count_to_bounds(pre_skel, *cfg, pre_skel.nodes.len() as int);
            lemma_same_shape_mass_count(*old(skel), pre_skel, *cfg, pre_skel.nodes.len() as int);
            assert(node_evolved(old(graph).nodes[j as int], nd)) by {
                let a = old(graph).nodes[j as int];
                if a.root_motion is None {
                    assert(nd == a);
                } else if a.root_motion->Some_0.curve is Some {
                    assert(nd == a);
                } else if res is Err {
                    assert(nd == a);
                }
            }
            if node_eligible(old(graph).nodes[j as int]) && !node_eligible(nd) {
                assert(res is Ok);
                assert(clip_resolvable(old(graph).nodes[j as int], *clips));
                assert(old(graph).nodes[j as int].root_motion->Some_0.bake_type is Cog);
                assert(mass_count(*old(skel), *cfg) > 0);
                assert(curve_bound_in(nd, *curves, *clips, *cfg, *ev, *old(skel))) by {
                    let h = nd.root_motion->Some_0.curve->Some_0;
                    assert(baked_curve_for(
                        curves.entry_of_id(h).curve,
                        *ev,
                        *cfg,
                        nd.clip->Some_0,
                        clips.spec_get(nd.clip->Some_0)->Some_0.duration_ticks,
                        pre_skel,
                    ));
                }
            }
            if node_eligible(old(graph).nodes[j as int]) && !node_bakeable(
                old(graph).nodes[j as int],
                *clips,
                *old(skel),
                *cfg,
            ) {
                assert(nd == old(graph).nodes[j as int]) by {
                    if res is Err {
                    } else if !node_eligible(nd) {
                        assert(false);
                    }
                }
            }
            let ghost fj = bake_fold_skel(
                *ev,
                *cfg,
                *clips,
                old(graph).nodes@,
                *old(skel),
                j as int,
            );
            assert(pre_skel == fj);
            assert forall|k: int|
                0 <= k < j && node_bakeable(
                    old(graph).nodes[k],
                    *clips,
                    bake_fold_skel(*ev, *cfg, *clips, old(graph).nodes@, *old(skel), k),
                    *cfg,
                ) implies ((#[trigger] graph.nodes[k]).root_motion->Some_0.curve
                matches Some(h) && curves.has_id(h) && baked_curve_for(
                curves.entry_of_id(h).curve,
                *ev,
                *cfg,
                old(graph).nodes[k].clip->Some_0,
                node_clip_duration(old(graph).nodes[k], *clips),
                bake_fold_skel(*ev, *cfg, *clips, old(graph).nodes@, *old(skel), k),
            )) by {
                assert(graph.nodes[k] == pre_nodes[k]);
                let h = graph.nodes[k].root_motion->Some_0.curve->Some_0;
                lemma_store_extends_preserves_entry(pre_curves, *curves, h);
            }
            if node_bakeable(old(graph).nodes[j as int], *clips, fj, *cfg) {
                assert(res is Ok);
                assert(!node_eligible(nd));
                assert(*skel == bake_fold_skel(
                    *ev,
                    *cfg,
                    *clips,
                    old(graph).nodes@,
                    *old(skel),
                    j + 1,
                ));
            } else {
                assert(nd == old(graph).nodes[j as int] && *skel == pre_skel) by {
                    let a = old(graph).nodes[j as int];
                    if res is Err {
                    } else if a.root_motion is None {
                        assert(false);
                    } else if a.root_motion->Some_0.curve is Some {
                    } else {
                        assert(false);
                    }
                }
                assert(*skel == bake_fold_skel(
                    *ev,
                    *cfg,
                    *clips,
                    old(graph).nodes@,
                    *old(skel),
                    j + 1,
                ));
            }
        }
        j = j + 1;
    }
}

/// One owner of an animation graph: a skeleton (its root is the skeleton's
/// node 0) and the handle of the graph it plays.
#[derive(Debug)]
pub struct Owner {
    pub skeleton: Skeleton,
    pub graph: u64,
}

/// The curve bound to a node is exactly what one owner's visit produced for
/// it: `nd_old`, the node's pre-pass value, sits at position `j` of some
/// sibling sequence `ns` (the graph's nodes as that visit found them), and
/// the curve samples the node's clip starting from the skeleton state that
/// the visit threaded to position `j` from owner `o`'s pre-pass skeleton.
pub open spec fn node_baked_by_pass<E: PoseEvaluator>(
    nd: AnimationGraphNode,
    nd_old: AnimationGraphNode,
    curves: CurveStore,
    clips: ClipStore,
    cfg: CogConfig,
    ev: E,
    owners: Seq<Owner>,
    graph_id: u64,
    j: int,
) -> bool {
    exists|o: int, ns: Seq<AnimationGraphNode>|
        #![trigger bake_fold_skel(ev, cfg, clips, ns, owners[o].skeleton, j)]
        0 <= o < owners.len() && owners[o].graph == graph_id && 0 <= j < ns.len() && ns[j]
            == nd_old && (nd.root_motion matches Some(rm) && (rm.curve matches Some(h)
            && curves.has_id(h) && baked_curve_for(
            curves.entry_of_id(h).curve,
            ev,
            cfg,
            nd_old.clip->Some_0,
            node_clip_duration(nd_old, clips),
            bake_fold_skel(ev, cfg, clips, ns, owners[o].skeleton, j),
        )))
}

/// The process-wide needs-baking flag: set while any owner has unbaked
/// root-motion nodes, cleared once a full pass finds none remaining.
#[derive(Debug, Clone, Copy, PartialEq, Eq, Structural)]
pub struct RootMotionNeedsBaking {
    pub set: bool,
}

/// A pass-produced binding survives any extension of the curve store.
pub proof fn lemma_baked_by_pass_extends<E: PoseEvaluator>(
    nd: AnimationGraphNode,
    nd_old: AnimationGraphNode,
    a: CurveStore,
    b: CurveStore,
    clips: ClipStore,
    cfg: CogConfig,
    ev: E,
    owners: Seq<Owner>,
    graph_id: u64,
    j: int,
)
    requires
        a.wf(),
        b.wf(),
        store_extends(a, b),
        node_baked_by_pass(nd, nd_old, a, clips, cfg, ev, owners, graph_id, j),
    ensures
        node_baked_by_pass(nd, nd_old, b, clips, cfg, ev, owners, graph_id, j),
{
    let (o, ns) = choose|o: int, ns: Seq<AnimationGraphNode>|
        #![trigger bake_fold_skel(ev, cfg, clips, ns, owners[o].skeleton, j)]
        0 <= o < owners.len() && owners[o].graph == graph_id && 0 <= j < ns.len() && ns[j]
            == nd_old && (nd.root_motion matches Some(rm) && (rm.curve matches Some(h)
            && a.has_id(h) && baked_curve_for(
            a.entry_of_id(h).curve,
            ev,
            cfg,
            nd_old.clip->Some_0,
            node_clip_duration(nd_old, clips),
            bake_fold_skel(ev, cfg, clips, ns, owners[o].skeleton, j),
        )));
    let h = nd.root_motion->Some_0.curve->Some_0;
    lemma_store_extends_preserves_entry(a, b, h);
    assert(baked_curve_for(
        b.entry_of_id(h).curve,
        ev,
        cfg,
        nd_old.clip->Some_0,
        node_clip_duration(nd_old, clips),
        bake_fold_skel(ev, cfg, clips, ns, owners[o].skeleton, j),
    ));
}

/// No node of this graph still awaits baking.
pub open spec fn graph_all_baked(g: AnimationGraph) -> bool {
    forall|j: int| 0 <= j < g.nodes.len() ==> !node_eligible(#[trigger] g.nodes[j])
}

/// Every owner's graph resolves and has no node still awaiting baking.
pub open spec fn spec_pass_complete(owners: Seq<Owner>, graphs: GraphStore) -> bool {
    forall|i: int|
        0 <= i < owners.len() ==> {
            &&& graphs.has_id((#[trigger] owners[i]).graph)
            &&& graph_all_baked(graphs.graphs[graphs.idx_of_id(owners[i].graph)].1)
        }
}

/// Resolves an owner's graph handle to its index in the store.
pub fn resolve_owner_graph(owner: &Owner, graphs: &GraphStore) -> (r: Result<
    usize,
    RootMotionError,
>)
    requires
        graphs.wf(),
    ensures
        graphs.has_id(owner.graph) ==> (r matches Ok(g) && g == graphs.idx_of_id(owner.graph)
            && 0 <= g < graphs.graphs.len() && graphs.graphs[g as int].0 == owner.graph),
        !graphs.has_id(owner.graph) ==> (r matches Err(e) && e is MissingGraph),
{
    match graphs.find_index(owner.graph) {
        Some(g) => Ok(g),
        None => Err(RootMotionError::MissingGraph),
    }
}

fn graph_all_baked_check(g: &AnimationGraph) -> (r: bool)
    ensures
        r == graph_all_baked(*g),
{
    let n = g.nodes.len();
    let mut j: usize = 0;
    while j < n
        invariant
            n == g.nodes.len(),
            j <= n,
            forall|k: int| 0 <= k < j ==> !node_eligible(#[trigger] g.nodes[k]),
        decreases n - j,
    {
        let eligible = match &g.nodes[j].root_motion {
            Some(rm) => rm.curve.is_none(),
            None => false,
        };
        if eligible {
            return false;
        }
        j = j + 1;
    }
    true
}

/// Whether a full pass would find nothing left to bake: every owner's graph
/// resolves and all its nodes are baked.
pub fn pass_complete_check(owners: &Vec<Owner>, graphs: &GraphStore) -> (r: bool)
    requires
        graphs.wf(),
    ensures
        r == spec_pass_complete(owners@, *graphs),
{
    let n = owners.len();
    let mut i: usize = 0;
    while i < n
        invariant
            graphs.wf(),
            n == owners.len(),
            i <= n,
            forall|k: int|
                0 <= k < i ==> {
                    &&& graphs.has_id((#[trigger] owners@[k]).graph)
                    &&& graph_all_baked(graphs.graphs[graphs.idx_of_id(owners@[k].graph)].1)
                },
        decreases n - i,
    {
        match graphs.find_index(owners[i].graph) {
            None => {
                assert(!graphs.has_id(owners@[i as int].graph));
                return false;
            },
            Some(g) => {
                if !graph_all_baked_check(&graphs.graphs[g].1) {
                    return false;
                }
            },
        }
        i = i + 1;
    }
    true
}

/// One cooperative bake pass over every owner, mirroring a scheduling tick.
///
/// For each owner whose graph resolves, every pending node of that graph is
/// baked against the owner's skeleton: the clip is sampled at the fixed
/// rate, the samples become an immutable linear curve stored under a fresh
/// handle, and the handle is bound to the node. Nodes that cannot be baked
/// are skipped softly and stay eligible; nodes already baked are left
/// untouched. The needs-baking flag is cleared exactly when the finished
/// pass finds no eligible node across any owner, and is never set here.
pub fn bake_root_motion_system<E: PoseEvaluator>(
    owners: &mut Vec<Owner>,
    graphs: &mut GraphStore,
    clips: &ClipStore,
    curves: &mut CurveStore,
    cfg: &CogConfig,
    ev: &E,
    flag: &mut RootMotionNeedsBaking,
)
    requires
        forall|k: int| 0 <= k < old(owners).len() ==> (#[trigger] old(owners)@[k]).skeleton.wf(),
        old(owners).len() <= MAX_OWNERS,
        old(graphs).wf(),
        clips.wf(),
        old(curves).wf(),
        old(curves).next_id <= 0x7FFF_FFFF_FFFF_FFFF,
    ensures
        final(owners).len() == old(owners).len(),
        forall|k: int|
            0 <= k < old(owners).len() ==> {
                &&& (#[trigger] final(owners)@[k]).graph == old(owners)@[k].graph
                &&& final(owners)@[k].skeleton.wf()
                &&& same_shape(old(owners)@[k].skeleton, final(owners)@[k].skeleton)
            },
        final(graphs).wf(),
        final(graphs).graphs.len() == old(graphs).graphs.len(),
        forall|k: int|
            0 <= k < old(graphs).graphs.len() ==> {
                &&& (#[trigger] final(graphs).graphs[k]).0 == old(graphs).graphs[k].0
                &&& graph_evolved(old(graphs).graphs[k].1, final(graphs).graphs[k].1)
            },
        final(curves).wf(),
        store_extends(*old(curves), *final(curves)),
        forall|o: int, k: int, j: int|
            #![trigger old(owners)@[o], old(graphs).graphs[k].1.nodes[j]]
            (0 <= o < old(owners).len() && 0 <= k < old(graphs).graphs.len() && old(
                graphs,
            ).graphs[k].0 == old(owners)@[o].graph && 0 <= j < old(
                graphs,
            ).graphs[k].1.nodes.len() && node_bakeable(
                old(graphs).graphs[k].1.nodes[j],
                *clips,
                old(owners)@[o].skeleton,
                *cfg,
            )) ==> !node_eligible(final(graphs).graphs[k].1.nodes[j]),
        forall|k: int, j: int|
            #![trigger old(graphs).graphs[k].1.nodes[j]]
            (0 <= k < old(graphs).graphs.len() && 0 <= j < old(graphs).graphs[k].1.nodes.len()
                && node_eligible(old(graphs).graphs[k].1.nodes[j]) && !node_eligible(
                final(graphs).graphs[k].1.nodes[j],
            )) ==> (final(graphs).graphs[k].1.nodes[j].root_motion->Some_0.curve matches Some(h)
                && final(curves).has_id(h) && final(curves).entry_of_id(h).curve.wf()),
        forall|k: int, j: int|
            #![trigger old(graphs).graphs[k].1.nodes[j]]
            (0 <= k < old(graphs).graphs.len() && 0 <= j < old(graphs).graphs[k].1.nodes.len()
                && node_eligible(old(graphs).graphs[k].1.nodes[j]) && !node_eligible(
                final(graphs).graphs[k].1.nodes[j],
            )) ==> (clip_resolvable(old(graphs).graphs[k].1.nodes[j], *clips) && old(
                graphs,
            ).graphs[k].1.nodes[j].root_motion->Some_0.bake_type is Cog && (exists|o: int|
                #![trigger old(owners)@[o]]
                0 <= o < old(owners).len() && old(owners)@[o].graph == old(graphs).graphs[k].0
                    && mass_count(old(owners)@[o].skeleton, *cfg) > 0 && curve_bound_in(
                    final(graphs).graphs[k].1.nodes[j],
                    *final(curves),
                    *clips,
                    *cfg,
                    *ev,
                    old(owners)@[o].skeleton,
                ))),
        forall|k: int, j: int|
            #![trigger old(graphs).graphs[k].1.nodes[j]]
            (0 <= k < old(graphs).graphs.len() && 0 <= j < old(graphs).graphs[k].1.nodes.len()
                && node_eligible(old(graphs).graphs[k].1.nodes[j]) && !(clip_resolvable(
                old(graphs).graphs[k].1.nodes[j],
                *clips,
            ) && old(graphs).graphs[k].1.nodes[j].root_motion->Some_0.bake_type is Cog))
                ==> final(graphs).graphs[k].1.nodes[j] == old(graphs).graphs[k].1.nodes[j],
        forall|k: int, j: int|
            #![trigger old(graphs).graphs[k].1.nodes[j]]
            (0 <= k < old(graphs).graphs.len() && 0 <= j < old(graphs).graphs[k].1.nodes.len()
                && node_eligible(old(graphs).graphs[k].1.nodes[j]) && !node_eligible(
                final(graphs).graphs[k].1.nodes[j],
            )) ==> node_baked_by_pass(
                final(graphs).graphs[k].1.nodes[j],
                old(graphs).graphs[k].1.nodes[j],
                *final(curves),
                *clips,
                *cfg,
                *ev,
                old(owners)@,
                old(graphs).graphs[k].0,
                j,
            ),
        final(flag).set == (old(flag).set && !spec_pass_complete(
            final(owners)@,
            *final(graphs),
        )),
{
    let n = owners.len();
    let mut i: usize = 0;
    while i < n
        invariant
            clips.wf(),
            curves.wf(),
            graphs.wf(),
            old(graphs).wf(),
            n == owners.len(),
            owners.len() == old(owners).len(),
            i <= n,
            n <= MAX_OWNERS,
            forall|k: int|
                0 <= k < n ==> {
                    &&& (#[trigger] owners@[k]).graph == old(owners)@[k].graph
                    &&& owners@[k].skeleton.wf()
                    &&& same_shape(old(owners)@[k].skeleton, owners@[k].skeleton)
                },
            graphs.graphs.len() == old(graphs).graphs.len(),
            forall|k: int|
                0 <= k < old(graphs).graphs.len() ==> {
                    &&& (#[trigger] graphs.graphs[k]).0 == old(graphs).graphs[k].0
                    &&& graph_evolved(old(graphs).graphs[k].1, graphs.graphs[k].1)
                },
            store_extends(*old(curves), *curves),
            old(curves).next_id <= 0x7FFF_FFFF_FFFF_FFFF,
            curves.next_id <= old(curves).next_id + (i as int) * (MAX_GRAPH_NODES as int),
            forall|o: int, k: int, j: int|
                #![trigger old(owners)@[o], old(graphs).graphs[k].1.nodes[j]]
                (0 <= o < i && 0 <= k < old(graphs).graphs.len() && old(graphs).graphs[k].0
                    == old(owners)@[o].graph && 0 <= j < old(graphs).graphs[k].1.nodes.len()
                    && node_bakeable(
                    old(graphs).graphs[k].1.nodes[j],
                    *clips,
                    old(owners)@[o].skeleton,
                    *cfg,
                )) ==> !node_eligible(graphs.graphs[k].1.nodes[j]),
            forall|k: int, j: int|
                #![trigger old(graphs).graphs[k].1.nodes[j]]
                (0 <= k < old(graphs).graphs.len() && 0 <= j < old(
                    graphs,
                ).graphs[k].1.nodes.len() && node_eligible(old(graphs).graphs[k].1.nodes[j])
                    && !node_eligible(graphs.graphs[k].1.nodes[j])) ==> (
                graphs.graphs[k].1.nodes[j].root_motion->Some_0.curve matches Some(h)
                    && curves.has_id(h) && curves.entry_of_id(h).curve.wf()),
            forall|k: int, j: int|
                #![trigger old(graphs).graphs[k].1.nodes[j]]
                (0 <= k < old(graphs).graphs.len() && 0 <= j < old(
                    graphs,
                ).graphs[k].1.nodes.len() && node_eligible(old(graphs).graphs[k].1.nodes[j])
                    && !node_eligible(graphs.graphs[k].1.nodes[j])) ==> (clip_resolvable(
                    old(graphs).graphs[k].1.nodes[j],
                    *clips,
                ) && old(graphs).graphs[k].1.nodes[j].root_motion->Some_0.bake_type is Cog && (
                exists|o: int|
                    #![trigger old(owners)@[o]]
                    0 <= o < old(owners).len() && old(owners)@[o].graph == old(
                        graphs,
                    ).graphs[k].0 && mass_count(old(owners)@[o].skeleton, *cfg) > 0
                        && curve_bound_in(
                        graphs.graphs[k].1.nodes[j],
                        *curves,
                        *clips,
                        *cfg,
                        *ev,
                        old(owners)@[o].skeleton,
                    ))),
            forall|k: int, j: int|
                #![trigger old(graphs).graphs[k].1.nodes[j]]
                (0 <= k < old(graphs).graphs.len() && 0 <= j < old(
                    graphs,
                ).graphs[k].1.nodes.len() && node_eligible(old(graphs).graphs[k].1.nodes[j])
                    && !(clip_resolvable(old(graphs).graphs[k].1.nodes[j], *clips) && old(
                    graphs,
                ).graphs[k].1.nodes[j].root_motion->Some_0.bake_type is Cog))
                    ==> graphs.graphs[k].1.nodes[j] == old(graphs).graphs[k].1.nodes[j],
            forall|kk: int| i <= kk < n ==> #[trigger] owners@[kk] == old(owners)@[kk],
            forall|k: int, j: int|
                #![trigger old(graphs).graphs[k].1.nodes[j]]
                (0 <= k < old(graphs).graphs.len() && 0 <= j < old(
                    graphs,
                ).graphs[k].1.nodes.len() && node_eligible(old(graphs).graphs[k].1.nodes[j])
                    && !node_eligible(graphs.graphs[k].1.nodes[j])) ==> node_baked_by_pass(
                    graphs.graphs[k].1.nodes[j],
                    old(graphs).graphs[k].1.nodes[j],
                    *curves,
                    *clips,
                    *cfg,
                    *ev,
                    old(owners)@,
                    old(graphs).graphs[k].0,
                    j,
                ),
            *flag == *old(flag),
        decreases n - i,
    {
        let ghost pre_owners = owners@;
        let owner = owners.remove(i);
        match resolve_owner_graph(&owner, graphs) {
            Err(_) => {
                owners.insert(i, owner);
                proof {
                    assert(owners@ =~= pre_owners);
                    assert((i as int) * (MAX_GRAPH_NODES as int) <= ((i + 1) as int) * (
                    MAX_GRAPH_NODES as int)) by (nonlinear_arith)
                        requires i >= 0;
                    assert forall|o: int, k: int, j: int|
                        (0 <= o < i + 1 && 0 <= k < old(graphs).graphs.len() && old(
                            graphs,
                        ).graphs[k].0 == old(owners)@[o].graph && 0 <= j < old(
                            graphs,
                        ).graphs[k].1.nodes.len() && node_bakeable(
                            old(graphs).graphs[k].1.nodes[j],
                            *clips,
                            old(owners)@[o].skeleton,
                            *cfg,
                        )) implies !node_eligible(graphs.graphs[k].1.nodes[j]) by {
                        if o == i {
                            assert(graphs.graphs[k].0 == old(graphs).graphs[k].0);
                            assert(graphs.has_id(pre_owners[i as int].graph));
                            assert(false);
                        }
                    }
                }
            },
            Ok(g) => {
                let ghost pre_graphs = graphs.graphs@;
                let ghost pre_curves = *curves;
                proof {
                    assert((i as int) * (MAX_GRAPH_NODES as int) <= (MAX_OWNERS as int) * (
                    MAX_GRAPH_NODES as int)) by (nonlinear_arith)
                        requires i <= MAX_OWNERS as int, MAX_GRAPH_NODES as int > 0;
                }
                let (gid, mut graph) = graphs.graphs.remove(g);
                let mut skel = owner.skeleton;
                let ghost pre_skel = skel;
                bake_graph(&mut skel, &mut graph, clips, curves, cfg, ev);
                graphs.graphs.insert(g, (gid, graph));
                owners.insert(i, Owner { skeleton: skel, graph: gid });
                proof {
                    assert(owners@ =~= pre_owners.update(
                        i as int,
                        Owner { skeleton: skel, graph: gid },
                    ));
                    assert(graphs.graphs@ =~= pre_graphs.update(
                        g as int,
                        graphs.graphs@[g as int],
                    ));
                    lemma_store_extends_trans(*old(curves), pre_curves, *curves);
                    assert forall|k: int| 0 <= k < old(graphs).graphs.len() implies {
                        &&& (#[trigger] graphs.graphs[k]).0 == old(graphs).graphs[k].0
                        &&& graph_evolved(old(graphs).graphs[k].1, graphs.graphs[k].1)
                    } by {
                        if k == g {
                            lemma_graph_evolved_trans(
                                old(graphs).graphs[k].1,
                                pre_graphs[k].1,
                                graphs.graphs[k].1,
                            );
                        } else {
                            assert(graphs.graphs[k] == pre_graphs[k]);
                        }
                    }
                    assert forall|k: int| 0 <= k < n implies {
                        &&& (#[trigger] owners@[k]).graph == old(owners)@[k].graph
                        &&& owners@[k].skeleton.wf()
                        &&& same_shape(old(owners)@[k].skeleton, owners@[k].skeleton)
                    } by {
                        if k == i {
                            lemma_same_shape_trans(
                                old(owners)@[k].skeleton,
                                pre_skel,
                                owners@[k].skeleton,
                            );
                        } else {
                            assert(owners@[k] == pre_owners[k]);
                        }
                    }
                    assert((i as int) * (MAX_GRAPH_NODES as int) + (MAX_GRAPH_NODES as int) == ((
                    i + 1) as int) * (MAX_GRAPH_NODES as int)) by (nonlinear_arith);
                    assert forall|o: int, k: int, j: int|
                        (0 <= o < i + 1 && 0 <= k < old(graphs).graphs.len() && old(
                            graphs,
                        ).graphs[k].0 == old(owners)@[o].graph && 0 <= j < old(
                            graphs,
                        ).graphs[k].1.nodes.len() && node_bakeable(
                            old(graphs).graphs[k].1.nodes[j],
                            *clips,
                            old(owners)@[o].skeleton,
                            *cfg,
                        )) implies !node_eligible(graphs.graphs[k].1.nodes[j]) by {
                        if o < i {
                            assert(!node_eligible(pre_graphs[k].1.nodes[j]));
                            if k == g {
                                assert(node_evolved(
                                    pre_graphs[k].1.nodes[j],
                                    graphs.graphs[k].1.nodes[j],
                                ));
                                lemma_evolved_keeps_settled(
                                    pre_graphs[k].1.nodes[j],
                                    graphs.graphs[k].1.nodes[j],
                                );
                            } else {
                                assert(graphs.graphs[k] == pre_graphs[k]);
                            }
                        } else {
                            assert(old(graphs).graphs[g as int].0 == pre_owners[i as int].graph);
                            old(graphs).lemma_id_unique(k, g as int);
                            let a = old(graphs).graphs[g as int].1.nodes[j];
                            let pre_node = pre_graphs[g as int].1.nodes[j];
                            assert(node_evolved(a, pre_node));
                            lemma_same_shape_mass_count(
                                old(owners)@[o].skeleton,
                                pre_skel,
                                *cfg,
                                pre_skel.nodes.len() as int,
                            );
                            if node_eligible(pre_node) {
                                assert(node_bakeable(pre_node, *clips, pre_skel, *cfg));
                                assert(!node_eligible(graphs.graphs[k].1.nodes[j]));
                            } else {
                                assert(node_evolved(pre_node, graphs.graphs[k].1.nodes[j]));
                                lemma_evolved_keeps_settled(
                                    pre_node,
                                    graphs.graphs[k].1.nodes[j],
                                );
                            }
                        }
                    }
                    assert forall|k: int, j: int|
                        (0 <= k < old(graphs).graphs.len() && 0 <= j < old(
                            graphs,
                        ).graphs[k].1.nodes.len() && node_eligible(
                            old(graphs).graphs[k].1.nodes[j],
                        ) && !node_eligible(graphs.graphs[k].1.nodes[j])) implies (
                    graphs.graphs[k].1.nodes[j].root_motion->Some_0.curve matches Some(h)
                        && curves.has_id(h) && curves.entry_of_id(h).curve.wf()) by {
                        let nd_final = graphs.graphs[k].1.nodes[j];
                        let nd_pre = pre_graphs[k].1.nodes[j];
                        if k != g {
                            assert(graphs.graphs[k] == pre_graphs[k]);
                            let h = nd_pre.root_motion->Some_0.curve->Some_0;
                            lemma_store_extends_preserves_entry(pre_curves, *curves, h);
                        } else if node_eligible(nd_pre) {
                            assert(curve_bound_in(
                                nd_final,
                                *curves,
                                *clips,
                                *cfg,
                                *ev,
                                pre_skel,
                            ));
                            let h = nd_final.root_motion->Some_0.curve->Some_0;
                            let s0 = choose|s0: Skeleton|
                                #[trigger] baked_curve_for(
                                    curves.entry_of_id(h).curve,
                                    *ev,
                                    *cfg,
                                    nd_final.clip->Some_0,
                                    clips.spec_get(
                                        nd_final.clip->Some_0,
                                    )->Some_0.duration_ticks,
                                    s0,
                                ) && s0.wf() && same_shape(pre_skel, s0);
                            assert(curves.entry_of_id(h).curve.wf());
                        } else {
                            assert(node_evolved(nd_pre, nd_final));
                            lemma_evolved_keeps_settled(nd_pre, nd_final);
                            let h = nd_pre.root_motion->Some_0.curve->Some_0;
                            lemma_store_extends_preserves_entry(pre_curves, *curves, h);
                        }
                    }
                    assert forall|k: int, j: int|
                        (0 <= k < old(graphs).graphs.len() && 0 <= j < old(
                            graphs,
                        ).graphs[k].1.nodes.len() && node_eligible(
                            old(graphs).graphs[k].1.nodes[j],
                        ) && !node_eligible(graphs.graphs[k].1.nodes[j])) implies (
                    clip_resolvable(old(graphs).graphs[k].1.nodes[j], *clips) && old(
                        graphs,
                    ).graphs[k].1.nodes[j].root_motion->Some_0.bake_type is Cog && (exists|
                        o: int,
                    |
                        #![trigger old(owners)@[o]]
                        0 <= o < old(owners).len() && old(owners)@[o].graph == old(
                            graphs,
                        ).graphs[k].0 && mass_count(old(owners)@[o].skeleton, *cfg) > 0
                            && curve_bound_in(
                            graphs.graphs[k].1.nodes[j],
                            *curves,
                            *clips,
                            *cfg,
                            *ev,
                            old(owners)@[o].skeleton,
                        ))) by {
                        let nd_old = old(graphs).graphs[k].1.nodes[j];
                        let nd_pre = pre_graphs[k].1.nodes[j];
                        let nd_final = graphs.graphs[k].1.nodes[j];
                        if k != g || !node_eligible(nd_pre) {
                            if k == g {
                                assert(node_evolved(nd_pre, nd_final));
                                lemma_evolved_keeps_settled(nd_pre, nd_final);
                            } else {
                                assert(graphs.graphs[k] == pre_graphs[k]);
                            }
                            let o = choose|o: int|
                                #![trigger old(owners)@[o]]
                                0 <= o < old(owners).len() && old(owners)@[o].graph == old(
                                    graphs,
                                ).graphs[k].0 && mass_count(old(owners)@[o].skeleton, *cfg)
                                    > 0 && curve_bound_in(
                                    nd_final,
                                    pre_curves,
                                    *clips,
                                    *cfg,
                                    *ev,
                                    old(owners)@[o].skeleton,
                                );
                            lemma_curve_bound_extends(
                                nd_final,
                                pre_curves,
                                *curves,
                                *clips,
                                *cfg,
                                *ev,
                                old(owners)@[o].skeleton,
                            );
                            assert(0 <= o < old(owners).len() && old(owners)@[o].graph == old(
                                graphs,
                            ).graphs[k].0 && mass_count(old(owners)@[o].skeleton, *cfg) > 0
                                && curve_bound_in(
                                nd_final,
                                *curves,
                                *clips,
                                *cfg,
                                *ev,
                                old(owners)@[o].skeleton,
                            ));
                        } else {
                            assert(node_evolved(nd_old, nd_pre));
                            assert(curve_bound_in(nd_final, *curves, *clips, *cfg, *ev,
                                pre_skel));
                            assert(clip_resolvable(nd_pre, *clips)
                                && nd_pre.root_motion->Some_0.bake_type is Cog && mass_count(
                                pre_skel,
                                *cfg,
                            ) > 0);
                            lemma_same_shape_mass_count(
                                old(owners)@[i as int].skeleton,
                                pre_skel,
                                *cfg,
                                pre_skel.nodes.len() as int,
                            );
                            lemma_curve_bound_shape(
                                nd_final,
                                *curves,
                                *clips,
                                *cfg,
                                *ev,
                                old(owners)@[i as int].skeleton,
                                pre_skel,
                            );
                            assert(old(owners)@[i as int].graph == old(
                                graphs,
                            ).graphs[k].0);
                            assert(0 <= i < old(owners).len() && old(owners)@[i as int].graph
                                == old(graphs).graphs[k].0 && mass_count(
                                old(owners)@[i as int].skeleton,
                                *cfg,
                            ) > 0 && curve_bound_in(
                                nd_final,
                                *curves,
                                *clips,
                                *cfg,
                                *ev,
                                old(owners)@[i as int].skeleton,
                            ));
                        }
                    }
                    assert forall|k: int, j: int|
                        (0 <= k < old(graphs).graphs.len() && 0 <= j < old(
                            graphs,
                        ).graphs[k].1.nodes.len() && node_eligible(
                            old(graphs).graphs[k].1.nodes[j],
                        ) && !(clip_resolvable(old(graphs).graphs[k].1.nodes[j], *clips) && old(
                            graphs,
                        ).graphs[k].1.nodes[j].root_motion->Some_0.bake_type is Cog)) implies
                        graphs.graphs[k].1.nodes[j] == old(graphs).graphs[k].1.nodes[j] by {
                        let nd_old = old(graphs).graphs[k].1.nodes[j];
                        let nd_pre = pre_graphs[k].1.nodes[j];
                        if k != g {
                            assert(graphs.graphs[k] == pre_graphs[k]);
                        } else {
                            assert(nd_pre == nd_old);
                            assert(node_eligible(nd_pre));
                            assert(!node_bakeable(nd_pre, *clips, pre_skel, *cfg));
                            assert(graphs.graphs[k].1.nodes[j] == nd_pre);
                        }
                    }
                    assert forall|k: int, j: int|
                        (0 <= k < old(graphs).graphs.len() && 0 <= j < old(
                            graphs,
                        ).graphs[k].1.nodes.len() && node_eligible(
                            old(graphs).graphs[k].1.nodes[j],
                        ) && !node_eligible(graphs.graphs[k].1.nodes[j])) implies
                        node_baked_by_pass(
                        graphs.graphs[k].1.nodes[j],
                        old(graphs).graphs[k].1.nodes[j],
                        *curves,
                        *clips,
                        *cfg,
                        *ev,
                        old(owners)@,
                        old(graphs).graphs[k].0,
                        j,
                    ) by {
                        let nd_old = old(graphs).graphs[k].1.nodes[j];
                        let nd_pre = pre_graphs[k].1.nodes[j];
                        let nd_final = graphs.graphs[k].1.nodes[j];
                        if k != g || !node_eligible(nd_pre) {
                            if k == g {
                                assert(node_evolved(nd_pre, nd_final));
                                lemma_evolved_keeps_settled(nd_pre, nd_final);
                            } else {
                                assert(graphs.graphs[k] == pre_graphs[k]);
                            }
                            lemma_baked_by_pass_extends(
                                nd_final,
                                nd_old,
                                pre_curves,
                                *curves,
                                *clips,
                                *cfg,
                                *ev,
                                old(owners)@,
                                old(graphs).graphs[k].0,
                                j,
                            );
                        } else {
                            assert(node_evolved(nd_old, nd_pre));
                            assert(nd_pre == nd_old);
                            let ns = pre_graphs[g as int].1.nodes@;
                            let fj = bake_fold_skel(*ev, *cfg, *clips, ns, pre_skel, j);
                            assert(node_bakeable(nd_pre, *clips, fj, *cfg)) by {
                                if !node_bakeable(nd_pre, *clips, fj, *cfg) {
                                    assert(nd_final == nd_pre);
                                }
                            }
                            let h = nd_final.root_motion->Some_0.curve->Some_0;
                            assert(curves.has_id(h));
                            assert(pre_skel == old(owners)@[i as int].skeleton);
                            assert(baked_curve_for(
                                curves.entry_of_id(h).curve,
                                *ev,
                                *cfg,
                                nd_old.clip->Some_0,
                                node_clip_duration(nd_old, *clips),
                                bake_fold_skel(
                                    *ev,
                                    *cfg,
                                    *clips,
                                    ns,
                                    old(owners)@[i as int].skeleton,
                                    j,
                                ),
                            ));
                            assert(old(owners)@[i as int].graph == old(graphs).graphs[k].0);
                        }
                    }
                }
            },
        }
        i = i + 1;
    }
    let complete = pass_complete_check(owners, graphs);
    if complete {
        flag.set = false;
    }
}

} // verus!
