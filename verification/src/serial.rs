//! Persistence form of root-motion data: a curve reference is saved as a
//! stable asset path where one is tracked, and as a raw asset id otherwise.
//! At load time, path references are resolved first, then id references; a
//! reference that resolves neither way is an explicit error.

use vstd::prelude::*;
use crate::{RootMotionBakeType, RootMotionError};
use crate::assets::{CurveStore, RootMotionData};

verus! {

/// A version of a `RootMotionCurve` reference suitable for serializing.
///
/// This replaces any handle that has a path with the path. Failing that, the
/// asset id is serialized directly.
#[derive(Debug)]
pub enum SerializedRootMotionCurve {
    /// Records an asset path.
    AssetPath(String),
    /// The fallback that records an asset id.
    ///
    /// Because asset ids can change across store rebuilds, this should not be
    /// relied upon. Prefer asset paths where possible.
    AssetId(u64),
}

/// A version of `RootMotionData` suitable for serializing.
#[derive(Debug)]
pub struct SerializedRootMotionData {
    pub bake_type: RootMotionBakeType,
    pub curve: SerializedRootMotionCurve,
}

/// Two serialized references that denote the same thing: equal paths, or
/// equal ids.
pub open spec fn ser_matches(a: SerializedRootMotionCurve, b: SerializedRootMotionCurve) -> bool {
    match (a, b) {
        (SerializedRootMotionCurve::AssetPath(p), SerializedRootMotionCurve::AssetPath(q)) => p@
            == q@,
        (SerializedRootMotionCurve::AssetId(x), SerializedRootMotionCurve::AssetId(y)) => x == y,
        _ => false,
    }
}

/// What saving the handle `h` against `curves` produces: the stable path if
/// the store tracks one for `h`, the raw id otherwise.
pub open spec fn spec_save_curve(h: u64, curves: CurveStore) -> SerializedRootMotionCurve {
    if curves.has_id(h) && curves.entry_of_id(h).path is Some {
        SerializedRootMotionCurve::AssetPath(curves.entry_of_id(h).path->Some_0)
    } else {
        SerializedRootMotionCurve::AssetId(h)
    }
}

/// What resolving a serialized reference against `curves` yields, if
/// anything: the handle of the entry with that path, or the id itself if the
/// store holds it.
pub open spec fn spec_resolve(s: SerializedRootMotionCurve, curves: CurveStore) -> Option<u64> {
    match s {
        SerializedRootMotionCurve::AssetPath(p) => if curves.has_path(p@) {
            Some(curves.entry_of_path(p@).id)
        } else {
            None
        },
        SerializedRootMotionCurve::AssetId(id) => if curves.has_id(id) {
            Some(id)
        } else {
            None
        },
    }
}

/// Saves a node's root-motion state for persistence. The curve reference is
/// emitted as the store's stable path for it where one exists, and as the
/// raw id otherwise; unbaked data has no persistent form.
pub fn save_root_motion_data(data: &RootMotionData, curves: &CurveStore) -> (r: Result<
    SerializedRootMotionData,
    RootMotionError,
>)
    requires
        curves.wf(),
    ensures
        data.curve is None ==> (r matches Err(e) && e is MissingRootMotionData),
        data.curve matches Some(h) ==> (r matches Ok(s) && s.bake_type == data.bake_type
            && ser_matches(s.curve, spec_save_curve(h, *curves))),
{
    match data.curve {
        None => Err(RootMotionError::MissingRootMotionData),
        Some(h) => {
            match curves.path_of_id(h) {
                Some(p) => Ok(
                    SerializedRootMotionData {
                        bake_type: data.bake_type,
                        curve: SerializedRootMotionCurve::AssetPath(p.clone()),
                    },
                ),
                None => Ok(
                    SerializedRootMotionData {
                        bake_type: data.bake_type,
                        curve: SerializedRootMotionCurve::AssetId(h),
                    },
                ),
            }
        },
    }
}

/// Resolves a serialized curve reference: by path first, then by id. A
/// reference that resolves neither way is reported, never silently dropped.
pub fn resolve_curve(s: &SerializedRootMotionCurve, curves: &CurveStore) -> (r: Result<
    u64,
    RootMotionError,
>)
    requires
        curves.wf(),
    ensures
        spec_resolve(*s, *curves) matches Some(id) ==> (r matches Ok(h) && h == id),
        spec_resolve(*s, *curves) is None ==> (r matches Err(e) && (
        e matches RootMotionError::AssetResolutionFailure(c) && ser_matches(c, *s))),
{
    match s {
        SerializedRootMotionCurve::AssetPath(p) => {
            match curves.find_id_by_path(p) {
                Some(id) => Ok(id),
                None => Err(
                    RootMotionError::AssetResolutionFailure(
                        SerializedRootMotionCurve::AssetPath(p.clone()),
                    ),
                ),
            }
        },
        SerializedRootMotionCurve::AssetId(id) => {
            match curves.get_by_id(*id) {
                Some(_) => Ok(*id),
                None => Err(
                    RootMotionError::AssetResolutionFailure(
                        SerializedRootMotionCurve::AssetId(*id),
                    ),
                ),
            }
        },
    }
}

/// Loads a node's root-motion state from its persistent form, resolving the
/// curve reference against the store.
pub fn load_root_motion_data(s: &SerializedRootMotionData, curves: &CurveStore) -> (r: Result<
    RootMotionData,
    RootMotionError,
>)
    requires
        curves.wf(),
    ensures
        spec_resolve(s.curve, *curves) matches Some(id) ==> (r matches Ok(d) && d.bake_type
            == s.bake_type && d.curve == Some(id)),
        spec_resolve(s.curve, *curves) is None ==> r is Err,
{
    let id = resolve_curve(&s.curve, curves)?;
    Ok(RootMotionData { bake_type: s.bake_type, curve: Some(id) })
}

/// A reload of a curve store: every entry of the old store that carries a
/// stable path is present in the new one under that path, with a curve of
/// equal content. Ids may differ arbitrarily.
pub open spec fn reload_preserves(s1: CurveStore, s2: CurveStore) -> bool {
    forall|i: int|
        0 <= i < s1.entries.len() ==> ((#[trigger] s1.entries[i]).path matches Some(p) ==> (
        s2.has_path(p@) && s2.entry_of_path(p@).curve.same_content(s1.entries[i].curve)))
}

/// Round trip: a curve reference saved via its stable path resolves, after a
/// store reload, to a curve equal in content to the original.
pub proof fn lemma_save_resolve_round_trip(s1: CurveStore, s2: CurveStore, h: u64)
    requires
        s1.wf(),
        s2.wf(),
        reload_preserves(s1, s2),
        s1.has_id(h),
        s1.entry_of_id(h).path is Some,
    ensures
        spec_resolve(spec_save_curve(h, s1), s2) matches Some(h2) && s2.has_id(h2)
            && s2.entry_of_id(h2).curve.same_content(s1.entry_of_id(h).curve),
{
    let i = s1.idx_of_id(h);
    assert(0 <= i < s1.entries.len() && s1.entries[i].id == h);
    let e = s1.entries[i];
    let pv = e.path->Some_0@;
    assert(s2.has_path(pv) && s2.entry_of_path(pv).curve.same_content(e.curve));
    let k = s2.idx_of_path(pv);
    assert(0 <= k < s2.entries.len() && (s2.entries[k].path matches Some(q) && q@ == pv));
    let h2 = s2.entries[k].id;
    assert(s2.has_id(h2));
    let m = s2.idx_of_id(h2);
    assert(0 <= m < s2.entries.len() && s2.entries[m].id == h2);
    s2.lemma_id_unique(k, m);
}

} // verus!
