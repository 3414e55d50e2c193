//! Root-motion extraction: sampling an animation clip into a time-keyed
//! translation curve that tracks the skeleton's weighted center of gravity.
//!
//! Positions are held in fixed-point integer units and time in ticks, one
//! tick per sample at the fixed sampling rate, so that every quantity the
//! baking pipeline computes is stated and proved exactly.

use vstd::prelude::*;

pub mod math;
pub mod skeleton;
pub mod curve;
pub mod assets;
pub mod serial;
pub mod driver;

verus! {

/// Fixed sampling rate of the baking driver: samples (and ticks) per second.
pub const SAMPLES_PER_SECOND: u64 = 60;

/// Largest number of nodes a skeleton may hold.
pub const MAX_SKELETON_NODES: usize = 65536;

/// Largest magnitude of a local translation component, in fixed-point units.
pub const MAX_LOCAL_COORD: i64 = 1048576;

/// Largest clip duration, in ticks.
pub const MAX_CLIP_TICKS: u64 = 2147483647;

/// Largest number of nodes an animation graph may hold.
pub const MAX_GRAPH_NODES: usize = 1048576;

/// Largest number of owners one bake pass serves.
pub const MAX_OWNERS: usize = 65536;

/// How a node's root motion is derived from the skeleton.
#[derive(Debug, Clone, Copy, PartialEq, Eq, Structural)]
pub enum RootMotionBakeType {
    /// Average the positions of all mass-bearing descendants of the root.
    Cog,
    /// Track a single designated root bone. Declared but not implemented:
    /// baking a node with this type reports an error instead of a curve.
    RootBone,
}

/// Whether nodes carrying no name count as mass-bearing in the center-of-gravity
/// average. The marker-prefix convention only classifies named nodes, so the
/// treatment of unnamed ones is an explicit configuration choice.
#[derive(Debug, Clone, Copy, PartialEq, Eq, Structural)]
pub struct CogConfig {
    pub unnamed_is_mass_bearing: bool,
}

impl Default for CogConfig {
    /// Unnamed nodes count as mass-bearing by default.
    fn default() -> (r: Self)
        ensures
            r.unnamed_is_mass_bearing,
    {
        CogConfig { unnamed_is_mass_bearing: true }
    }
}

/// Everything that can go wrong in the root-motion pipeline.
///
/// Per-node failures are soft: the baking driver skips the node, which stays
/// eligible and is retried on a later pass.
#[derive(Debug)]
pub enum RootMotionError {
    /// An owner's animation graph could not be resolved in the store.
    MissingGraph,
    /// A node carries no clip reference, or its clip is not in the store.
    MissingClip,
    /// A node carries no root-motion data.
    MissingRootMotionData,
    /// The skeleton has no mass-bearing descendant, so no center of gravity
    /// exists; reported instead of dividing by zero.
    ZeroMassNodes,
    /// The requested bake type is declared but not implemented.
    UnimplementedBakeType(RootMotionBakeType),
    /// A serialized curve reference resolved neither by path nor by id.
    AssetResolutionFailure(crate::serial::SerializedRootMotionCurve),
}

} // verus!
