//! The immutable root-motion curve: a time-keyed sequence of positions.

use vstd::prelude::*;
use crate::math::Vec3Fixed;

verus! {

/// How samples between keyframes are interpolated.
#[derive(Debug, Clone, Copy, PartialEq, Eq, Structural)]
pub enum Interpolation {
    Linear,
    Step,
    CubicSpline,
}

/// An immutable keyframe curve of root positions, sampled at the fixed rate:
/// one keyframe per tick, starting at tick 0.
#[derive(Debug)]
pub struct RootMotionCurve {
    /// Keyframe times, in ticks. Always `0, 1, 2, ...`.
    pub timestamps: Vec<u64>,
    /// One position per timestamp.
    pub positions: Vec<Vec3Fixed>,
    /// How to interpolate between keyframes.
    pub interpolation: Interpolation,
}

impl RootMotionCurve {
    /// Well-formedness: as many timestamps as positions, at least one sample,
    /// the first timestamp 0 and each later one greater by exactly one step.
    pub open spec fn wf(self) -> bool {
        &&& self.timestamps.len() == self.positions.len()
        &&& self.timestamps.len() >= 1
        &&& forall|k: int| 0 <= k < self.timestamps.len() ==> #[trigger] self.timestamps[k] == k
    }

    /// The curve spans time 0 through `duration` inclusive.
    pub open spec fn covers(self, duration: u64) -> bool {
        self.timestamps.len() == duration + 1
    }

    /// Two curves with the same keyframes.
    pub open spec fn same_content(self, other: RootMotionCurve) -> bool {
        &&& self.timestamps@ == other.timestamps@
        &&& self.positions@ == other.positions@
    }

    /// Builds a curve from sampled keyframes. That the two sequences have
    /// equal length and step-aligned timestamps is an internal consistency
    /// requirement of the baking pipeline, established statically here
    /// rather than asserted at run time.
    pub fn new(timestamps: Vec<u64>, positions: Vec<Vec3Fixed>, interpolation: Interpolation) -> (r: Self)
        requires
            timestamps.len() == positions.len(),
            timestamps.len() >= 1,
            forall|k: int| 0 <= k < timestamps.len() ==> #[trigger] timestamps[k] == k,
        ensures
            r.wf(),
            r.timestamps == timestamps,
            r.positions == positions,
            r.interpolation == interpolation,
    {
        RootMotionCurve { timestamps, positions, interpolation }
    }
}

} // verus!
