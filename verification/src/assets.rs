//! Asset stores and the animation-graph model.
//!
//! Clips, graphs and baked curves are owned by stores and referenced by
//! integer handles. A curve entry may also carry a stable asset path, the
//! preferred reference for serialization.

use vstd::prelude::*;
use crate::RootMotionBakeType;
use crate::curve::RootMotionCurve;
use crate::MAX_CLIP_TICKS;

verus! {

/// An animation clip, as far as the baking pipeline reads it: its duration
/// in ticks. The per-target curves that drive bone transforms belong to the
/// pose-evaluation machinery.
#[derive(Debug, Clone, Copy)]
pub struct AnimationClip {
    pub duration_ticks: u64,
}

impl AnimationClip {
    pub open spec fn wf(self) -> bool {
        self.duration_ticks <= MAX_CLIP_TICKS
    }
}

/// Clip assets, keyed by handle.
#[derive(Debug)]
pub struct ClipStore {
    pub clips: Vec<(u64, AnimationClip)>,
}

impl ClipStore {
    pub open spec fn wf(self) -> bool {
        &&& forall|i: int, j: int|
            #![trigger self.clips[i], self.clips[j]]
            0 <= i < j < self.clips.len() ==> self.clips[i].0 != self.clips[j].0
        &&& forall|i: int| 0 <= i < self.clips.len() ==> (#[trigger] self.clips[i]).1.wf()
    }

    /// Clip handles are unique: equal ids mean the same index.
    pub proof fn lemma_id_unique(self, i: int, j: int)
        requires
            self.wf(),
            0 <= i < self.clips.len(),
            0 <= j < self.clips.len(),
            self.clips[i].0 == self.clips[j].0,
        ensures
            i == j,
    {
        if i < j {
            assert(self.clips[i].0 != self.clips[j].0);
        } else if j < i {
            assert(self.clips[j].0 != self.clips[i].0);
        }
    }

    pub open spec fn has_id(self, id: u64) -> bool {
        exists|i: int| 0 <= i < self.clips.len() && (#[trigger] self.clips[i]).0 == id
    }

    pub open spec fn idx_of_id(self, id: u64) -> int {
        choose|i: int| 0 <= i < self.clips.len() && (#[trigger] self.clips[i]).0 == id
    }

    /// The clip stored under `id`, if any.
    pub open spec fn spec_get(self, id: u64) -> Option<AnimationClip> {
        if self.has_id(id) {
            Some(self.clips[self.idx_of_id(id)].1)
        } else {
            None
        }
    }

    pub fn get(&self, id: u64) -> (r: Option<AnimationClip>)
        requires
            self.wf(),
        ensures
            r == self.spec_get(id),
    {
        let n = self.clips.len();
        let mut i: usize = 0;
        while i < n
            invariant
                self.wf(),
                n == self.clips.len(),
                i <= n,
                forall|k: int| 0 <= k < i ==> (#[trigger] self.clips[k]).0 != id,
            decreases n - i,
        {
            if self.clips[i].0 == id {
                proof {
                    let j = self.idx_of_id(id);
                    assert(0 <= j < self.clips.len() && self.clips[j].0 == id);
                    self.lemma_id_unique(i as int, j);
                }
                return Some(self.clips[i].1);
            }
            i = i + 1;
        }
        None
    }

    /// Adds a clip under a fresh handle chosen by the caller.
    pub fn add(&mut self, id: u64, clip: AnimationClip)
        requires
            old(self).wf(),
            clip.wf(),
            !old(self).has_id(id),
        ensures
            final(self).wf(),
            final(self).clips@ == old(self).clips@.push((id, clip)),
            final(self).has_id(id),
    {
        self.clips.push((id, clip));
        proof {
            assert(final(self).clips[final(self).clips.len() - 1].0 == id);
        }
    }
}

/// One stored curve: its handle, an optional stable asset path, and the
/// curve itself.
#[derive(Debug)]
pub struct CurveEntry {
    pub id: u64,
    pub path: Option<String>,
    pub curve: RootMotionCurve,
}

/// Baked-curve assets. Handles are allocated in order; an entry may carry a
/// stable path, and paths are unique among the entries that have one.
#[derive(Debug)]
pub struct CurveStore {
    pub entries: Vec<CurveEntry>,
    pub next_id: u64,
}

impl CurveStore {
    pub open spec fn wf(self) -> bool {
        &&& forall|i: int| 0 <= i < self.entries.len() ==> (#[trigger] self.entries[i]).id
            < self.next_id
        &&& forall|i: int, j: int|
            #![trigger self.entries[i], self.entries[j]]
            0 <= i < j < self.entries.len() ==> self.entries[i].id != self.entries[j].id
        &&& forall|i: int, j: int|
            #![trigger self.entries[i], self.entries[j]]
            0 <= i < j < self.entries.len() ==> (self.entries[i].path matches Some(p)
                ==> (self.entries[j].path matches Some(q) ==> p@ != q@))
        &&& forall|i: int| 0 <= i < self.entries.len() ==> (#[trigger] self.entries[i]).curve.wf()
    }

    /// Curve handles are unique: equal ids mean the same index.
    pub proof fn lemma_id_unique(self, i: int, j: int)
        requires
            self.wf(),
            0 <= i < self.entries.len(),
            0 <= j < self.entries.len(),
            self.entries[i].id == self.entries[j].id,
        ensures
            i == j,
    {
        if i < j {
            assert(self.entries[i].id != self.entries[j].id);
        } else if j < i {
            assert(self.entries[j].id != self.entries[i].id);
        }
    }

    /// Stable paths are unique: equal paths mean the same index.
    pub proof fn lemma_path_unique(self, i: int, j: int, p: Seq<char>)
        requires
            self.wf(),
            0 <= i < self.entries.len(),
            0 <= j < self.entries.len(),
            self.entries[i].path matches Some(q) && q@ == p,
            self.entries[j].path matches Some(t) && t@ == p,
        ensures
            i == j,
    {
        if i < j {
            assert(self.entries[i].path matches Some(q) ==> (self.entries[j].path
                matches Some(t) ==> q@ != t@));
        } else if j < i {
            assert(self.entries[j].path matches Some(q) ==> (self.entries[i].path
                matches Some(t) ==> q@ != t@));
        }
    }

    pub open spec fn has_id(self, id: u64) -> bool {
        exists|i: int| 0 <= i < self.entries.len() && (#[trigger] self.entries[i]).id == id
    }

    pub open spec fn idx_of_id(self, id: u64) -> int {
        choose|i: int| 0 <= i < self.entries.len() && (#[trigger] self.entries[i]).id == id
    }

    /// The entry stored under `id`.
    pub open spec fn entry_of_id(self, id: u64) -> CurveEntry
        recommends
            self.has_id(id),
    {
        self.entries[self.idx_of_id(id)]
    }

    pub open spec fn has_path(self, p: Seq<char>) -> bool {
        exists|i: int|
            0 <= i < self.entries.len() && ((#[trigger] self.entries[i]).path matches Some(q)
                && q@ == p)
    }

    pub open spec fn idx_of_path(self, p: Seq<char>) -> int {
        choose|i: int|
            0 <= i < self.entries.len() && ((#[trigger] self.entries[i]).path matches Some(q)
                && q@ == p)
    }

    /// The entry whose stable path is `p`.
    pub open spec fn entry_of_path(self, p: Seq<char>) -> CurveEntry
        recommends
            self.has_path(p),
    {
        self.entries[self.idx_of_path(p)]
    }

    /// An empty store.
    pub fn new() -> (r: Self)
        ensures
            r.wf(),
            r.entries@.len() == 0,
            r.next_id == 0,
    {
        CurveStore { entries: Vec::new(), next_id: 0 }
    }

    /// Stores a curve, under a stable path if one is given, and returns the
    /// fresh handle.
    pub fn add(&mut self, curve: RootMotionCurve, path: Option<String>) -> (id: u64)
        requires
            old(self).wf(),
            curve.wf(),
            old(self).next_id < u64::MAX,
            path matches Some(p) ==> !old(self).has_path(p@),
        ensures
            final(self).wf(),
            id == old(self).next_id,
            final(self).next_id == old(self).next_id + 1,
            final(self).entries@ == old(self).entries@.push(
                CurveEntry { id, path, curve },
            ),
            final(self).has_id(id),
            !old(self).has_id(id),
    {
        let id = self.next_id;
        self.next_id = self.next_id + 1;
        self.entries.push(CurveEntry { id, path, curve });
        proof {
            let n = self.entries.len() - 1;
            assert(self.entries[n].id == id);
        }
        id
    }

    /// The curve stored under `id`, if any.
    pub fn get_by_id(&self, id: u64) -> (r: Option<&RootMotionCurve>)
        requires
            self.wf(),
        ensures
            self.has_id(id) ==> (r matches Some(c) && *c == self.entry_of_id(id).curve),
            !self.has_id(id) ==> r is None,
    {
        let n = self.entries.len();
        let mut i: usize = 0;
        while i < n
            invariant
                self.wf(),
                n == self.entries.len(),
                i <= n,
                forall|k: int| 0 <= k < i ==> (#[trigger] self.entries[k]).id != id,
            decreases n - i,
        {
            if self.entries[i].id == id {
                proof {
                    let j = self.idx_of_id(id);
                    assert(0 <= j < self.entries.len() && self.entries[j].id == id);
                    self.lemma_id_unique(i as int, j);
                }
                return Some(&self.entries[i].curve);
            }
            i = i + 1;
        }
        None
    }

    /// Tracks `path` as the stable path of the entry under `id`, so that a
    /// curve the driver baked can later be saved by path rather than by its
    /// unstable id. Returns whether the path was attached: it is not when
    /// `id` is unknown or the path is already taken, and the store is then
    /// left unchanged.
    pub fn set_path(&mut self, id: u64, path: String) -> (r: bool)
        requires
            old(self).wf(),
        ensures
            final(self).wf(),
            r == (old(self).has_id(id) && !old(self).has_path(path@)),
            !r ==> *final(self) == *old(self),
            r ==> {
                let m = old(self).idx_of_id(id);
                &&& final(self).next_id == old(self).next_id
                &&& final(self).entries@.len() == old(self).entries@.len()
                &&& forall|k: int|
                    0 <= k < old(self).entries.len() && k != m
                        ==> #[trigger] final(self).entries[k] == old(self).entries[k]
                &&& final(self).entries[m].id == id
                &&& (final(self).entries[m].path matches Some(p) && p@ == path@)
                &&& final(self).entries[m].curve == old(self).entry_of_id(id).curve
                &&& final(self).has_id(id)
            },
    {
        if self.find_id_by_path(&path).is_some() {
            return false;
        }
        let n = self.entries.len();
        let mut i: usize = 0;
        while i < n
            invariant
                self.wf(),
                *self == *old(self),
                !self.has_path(path@),
                n == self.entries.len(),
                i <= n,
                forall|k: int| 0 <= k < i ==> (#[trigger] self.entries[k]).id != id,
            decreases n - i,
        {
            if self.entries[i].id == id {
                proof {
                    let m = self.idx_of_id(id);
                    assert(0 <= m < self.entries.len() && self.entries[m].id == id);
                    self.lemma_id_unique(i as int, m);
                }
                let ghost pre = *self;
                let entry = self.entries.remove(i);
                let updated = CurveEntry { id: entry.id, path: Some(path), curve: entry.curve };
                self.entries.insert(i, updated);
                proof {
                    assert(self.entries@ =~= pre.entries@.update(i as int, updated));
                    assert forall|a: int, b: int|
                        #![trigger self.entries[a], self.entries[b]]
                        0 <= a < b < self.entries.len() implies (self.entries[a].path
                        matches Some(p) ==> (self.entries[b].path matches Some(q) ==> p@
                        != q@)) by {
                        if a != i && b != i {
                            assert(self.entries[a] == pre.entries[a]);
                            assert(self.entries[b] == pre.entries[b]);
                        } else if a == i as int {
                            if self.entries[b].path matches Some(q) && q@ == path@ {
                                assert(pre.entries[b].path matches Some(t) && t@ == path@);
                                assert(pre.has_path(path@));
                            }
                        } else {
                            if self.entries[a].path matches Some(q) && q@ == path@ {
                                assert(pre.entries[a].path matches Some(t) && t@ == path@);
                                assert(pre.has_path(path@));
                            }
                        }
                    }
                    assert(self.entries[i as int].id == id);
                }
                return true;
            }
            i = i + 1;
        }
        false
    }

    /// The stable path tracked for the entry under `id`, if any.
    pub fn path_of_id(&self, id: u64) -> (r: Option<&String>)
        requires
            self.wf(),
        ensures
            self.has_id(id) ==> (self.entry_of_id(id).path matches Some(q) ==> (
            r matches Some(p) && p@ == q@)),
            self.has_id(id) ==> (self.entry_of_id(id).path is None ==> r is None),
            !self.has_id(id) ==> r is None,
    {
        let n = self.entries.len();
        let mut i: usize = 0;
        while i < n
            invariant
                self.wf(),
                n == self.entries.len(),
                i <= n,
                forall|k: int| 0 <= k < i ==> (#[trigger] self.entries[k]).id != id,
            decreases n - i,
        {
            if self.entries[i].id == id {
                proof {
                    let j = self.idx_of_id(id);
                    assert(0 <= j < self.entries.len() && self.entries[j].id == id);
                    self.lemma_id_unique(i as int, j);
                }
                return match &self.entries[i].path {
                    Some(p) => Some(p),
                    None => None,
                };
            }
            i = i + 1;
        }
        None
    }

    /// The handle of the entry whose stable path is `p`, if any.
    pub fn find_id_by_path(&self, p: &String) -> (r: Option<u64>)
        requires
            self.wf(),
        ensures
            self.has_path(p@) ==> (r matches Some(id) && self.has_id(id) && self.entry_of_id(id)
                == self.entry_of_path(p@)),
            !self.has_path(p@) ==> r is None,
    {
        let n = self.entries.len();
        let mut i: usize = 0;
        while i < n
            invariant
                self.wf(),
                n == self.entries.len(),
                i <= n,
                forall|k: int|
                    0 <= k < i ==> ((#[trigger] self.entries[k]).path matches Some(q) ==> q@
                        != p@),
            decreases n - i,
        {
            match &self.entries[i].path {
                Some(q) => {
                    if *q == *p {
                        let id = self.entries[i].id;
                        proof {
                            assert(self.has_path(p@));
                            let j = self.idx_of_path(p@);
                            assert(0 <= j < self.entries.len() && (self.entries[j].path
                                matches Some(t) && t@ == p@));
                            self.lemma_path_unique(i as int, j, p@);
                            assert(self.has_id(id));
                            let m = self.idx_of_id(id);
                            assert(0 <= m < self.entries.len() && self.entries[m].id == id);
                            self.lemma_id_unique(i as int, m);
                        }
                        return Some(id);
                    }
                },
                None => {},
            }
            i = i + 1;
        }
        None
    }
}

/// Per-node root-motion state: how to bake, and the baked curve once the
/// driver has produced one. Created with `curve` unset; set exactly once.
#[derive(Debug, Clone, Copy)]
pub struct RootMotionData {
    pub bake_type: RootMotionBakeType,
    /// Handle of the baked curve in the curve store, once baked.
    pub curve: Option<u64>,
}

/// One node of an animation graph, as far as the baking pipeline reads it.
#[derive(Debug, Clone, Copy)]
pub struct AnimationGraphNode {
    /// Root-motion state, if this node takes part in root-motion baking.
    pub root_motion: Option<RootMotionData>,
    /// Handle of the clip this node plays, if any.
    pub clip: Option<u64>,
}

/// A directed graph of animation nodes; only the per-node data matters to
/// the baking pipeline.
#[derive(Debug)]
pub struct AnimationGraph {
    pub nodes: Vec<AnimationGraphNode>,
}

/// Graph assets, keyed by handle.
#[derive(Debug)]
pub struct GraphStore {
    pub graphs: Vec<(u64, AnimationGraph)>,
}

impl GraphStore {
    pub open spec fn wf(self) -> bool {
        &&& forall|i: int, j: int|
            #![trigger self.graphs[i], self.graphs[j]]
            0 <= i < j < self.graphs.len() ==> self.graphs[i].0 != self.graphs[j].0
        &&& forall|i: int| 0 <= i < self.graphs.len() ==> (#[trigger] self.graphs[i]).1.nodes.len()
            <= crate::MAX_GRAPH_NODES
    }

    /// Graph handles are unique: equal ids mean the same index.
    pub proof fn lemma_id_unique(self, i: int, j: int)
        requires
            self.wf(),
            0 <= i < self.graphs.len(),
            0 <= j < self.graphs.len(),
            self.graphs[i].0 == self.graphs[j].0,
        ensures
            i == j,
    {
        if i < j {
            assert(self.graphs[i].0 != self.graphs[j].0);
        } else if j < i {
            assert(self.graphs[j].0 != self.graphs[i].0);
        }
    }

    pub open spec fn has_id(self, id: u64) -> bool {
        exists|i: int| 0 <= i < self.graphs.len() && (#[trigger] self.graphs[i]).0 == id
    }

    pub open spec fn idx_of_id(self, id: u64) -> int {
        choose|i: int| 0 <= i < self.graphs.len() && (#[trigger] self.graphs[i]).0 == id
    }

    /// Index of the graph stored under `id`, if any.
    pub fn find_index(&self, id: u64) -> (r: Option<usize>)
        requires
            self.wf(),
        ensures
            self.has_id(id) ==> (r matches Some(i) && i == self.idx_of_id(id) && 0 <= i
                < self.graphs.len() && self.graphs[i as int].0 == id),
            !self.has_id(id) ==> r is None,
    {
        let n = self.graphs.len();
        let mut i: usize = 0;
        while i < n
            invariant
                self.wf(),
                n == self.graphs.len(),
                i <= n,
                forall|k: int| 0 <= k < i ==> (#[trigger] self.graphs[k]).0 != id,
            decreases n - i,
        {
            if self.graphs[i].0 == id {
                proof {
                    let j = self.idx_of_id(id);
                    assert(0 <= j < self.graphs.len() && self.graphs[j].0 == id);
                    self.lemma_id_unique(i as int, j);
                }
                return Some(i);
            }
            i = i + 1;
        }
        None
    }
}

} // verus!
