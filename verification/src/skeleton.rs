//! The skeleton model and the hierarchy center-of-gravity sampler.
//!
//! A skeleton is a tree of nodes held in topological order: the root is node
//! 0 and every other node's parent has a smaller index, which makes the
//! parent links acyclic by construction. A descendant counts as mass-bearing
//! if it has no name (under the default configuration) or its name carries
//! the deformation-bone marker prefix; its position relative to the root is
//! the sum of the local translations along its ancestor chain, excluding the
//! root's own translation.

use vstd::prelude::*;
use vstd::string::StrSliceExecFns;
use crate::{CogConfig, RootMotionError, MAX_LOCAL_COORD, MAX_SKELETON_NODES};
use crate::math::{gv_bounded, gv_div, gv_plus, gv_zero, vec3_div, GVec3, Vec3Fixed};

verus! {

/// One node of a skeleton: its parent link, optional display name, and local
/// translation relative to its parent, in fixed-point units.
#[derive(Debug)]
pub struct SkeletonNode {
    /// Index of the parent node; `None` only for the root.
    pub parent: Option<usize>,
    /// Optional display name; drives the mass-bearing classification.
    pub name: Option<String>,
    /// Local translation relative to the parent.
    pub translation: Vec3Fixed,
}

/// A skeleton: a tree of nodes rooted at index 0, in topological order.
#[derive(Debug)]
pub struct Skeleton {
    pub nodes: Vec<SkeletonNode>,
}

/// The name of a node as a character sequence, if it has one.
pub open spec fn name_view(n: Option<String>) -> Option<Seq<char>> {
    match n {
        Option::None => Option::None,
        Option::Some(s) => Option::Some(s@),
    }
}

/// Whether a name carries the deformation-bone marker prefix `DEF`.
pub open spec fn marker_prefixed(s: Seq<char>) -> bool {
    s.len() >= 3 && s[0] == 'D' && s[1] == 'E' && s[2] == 'F'
}

/// Whether a node with this name counts toward the center of gravity.
pub open spec fn spec_mass_bearing(cfg: CogConfig, name: Option<Seq<char>>) -> bool {
    match name {
        Option::None => cfg.unnamed_is_mass_bearing,
        Option::Some(s) => marker_prefixed(s),
    }
}

/// Largest magnitude a position relative to the root can reach.
pub open spec fn rel_bound() -> int {
    (MAX_SKELETON_NODES - 1) * (MAX_LOCAL_COORD as int)
}

/// Largest magnitude a sum of relative positions can reach.
pub open spec fn sum_bound() -> int {
    (MAX_SKELETON_NODES as int) * rel_bound()
}

impl Skeleton {
    /// Well-formedness: nonempty and bounded in size, node 0 is the root,
    /// every other node's parent has a smaller index (so the links form a
    /// tree), and all local translations are bounded.
    pub open spec fn wf(self) -> bool {
        &&& 1 <= self.nodes.len() <= MAX_SKELETON_NODES
        &&& self.nodes[0].parent is None
        &&& forall|i: int| 1 <= i < self.nodes.len() ==>
                ((#[trigger] self.nodes[i]).parent matches Some(p) && 0 < p < i || self.nodes[i].parent == Some(0usize))
        &&& forall|i: int| 0 <= i < self.nodes.len() ==>
                gv_bounded((#[trigger] self.nodes[i]).translation@, MAX_LOCAL_COORD as int)
    }
}

/// Two skeletons with the same tree structure and names; only the local
/// translations may differ. Posing a skeleton preserves its shape.
pub open spec fn same_shape(a: Skeleton, b: Skeleton) -> bool {
    &&& a.nodes.len() == b.nodes.len()
    &&& forall|i: int| 0 <= i < a.nodes.len() ==>
            (#[trigger] a.nodes[i]).parent == b.nodes[i].parent
    &&& forall|i: int| 0 <= i < a.nodes.len() ==>
            name_view((#[trigger] a.nodes[i]).name) == name_view(b.nodes[i].name)
}

pub proof fn lemma_same_shape_trans(a: Skeleton, b: Skeleton, c: Skeleton)
    requires
        same_shape(a, b),
        same_shape(b, c),
    ensures
        same_shape(a, c),
{
    assert forall|i: int| 0 <= i < a.nodes.len() implies (#[trigger] a.nodes[i]).parent
        == c.nodes[i].parent by {
        assert(b.nodes[i].parent == c.nodes[i].parent);
    }
    assert forall|i: int| 0 <= i < a.nodes.len() implies name_view((#[trigger] a.nodes[i]).name)
        == name_view(c.nodes[i].name) by {
        assert(name_view(b.nodes[i].name) == name_view(c.nodes[i].name));
    }
}

/// Position of node `i` relative to the root: the sum of local translations
/// along the chain from `i` up to, but excluding, the root.
pub open spec fn rel_pos(s: Skeleton, i: int) -> GVec3
    recommends
        s.wf(),
        1 <= i < s.nodes.len(),
    decreases i,
{
    match s.nodes[i].parent {
        Option::None => s.nodes[i].translation@,
        Option::Some(p) => if 1 <= p < i {
            gv_plus(s.nodes[i].translation@, rel_pos(s, p as int))
        } else {
            s.nodes[i].translation@
        },
    }
}

/// Number of mass-bearing descendants among nodes `1 .. n`.
pub open spec fn mass_count_to(s: Skeleton, cfg: CogConfig, n: int) -> int
    decreases n,
{
    if n <= 1 {
        0
    } else {
        mass_count_to(s, cfg, n - 1)
            + if spec_mass_bearing(cfg, name_view(s.nodes[n - 1].name)) { 1int } else { 0int }
    }
}

/// Sum of the root-relative positions of mass-bearing nodes among `1 .. n`.
pub open spec fn cog_sum_to(s: Skeleton, cfg: CogConfig, n: int) -> GVec3
    decreases n,
{
    if n <= 1 {
        gv_zero()
    } else if spec_mass_bearing(cfg, name_view(s.nodes[n - 1].name)) {
        gv_plus(cog_sum_to(s, cfg, n - 1), rel_pos(s, n - 1))
    } else {
        cog_sum_to(s, cfg, n - 1)
    }
}

/// Number of mass-bearing descendants of the root.
pub open spec fn mass_count(s: Skeleton, cfg: CogConfig) -> int {
    mass_count_to(s, cfg, s.nodes.len() as int)
}

/// Sum of the root-relative positions of all mass-bearing descendants.
pub open spec fn cog_sum(s: Skeleton, cfg: CogConfig) -> GVec3 {
    cog_sum_to(s, cfg, s.nodes.len() as int)
}

/// The center of gravity: the mass-bearing position sum divided by the
/// mass-bearing count, truncating toward zero.
pub open spec fn cog_point(s: Skeleton, cfg: CogConfig) -> GVec3
    recommends
        mass_count(s, cfg) > 0,
{
    gv_div(cog_sum(s, cfg), mass_count(s, cfg))
}

pub proof fn lemma_mass_count_to_bounds(s: Skeleton, cfg: CogConfig, n: int)
    requires
        n >= 1,
    ensures
        0 <= mass_count_to(s, cfg, n) <= n - 1,
    decreases n,
{
    if n > 1 {
        lemma_mass_count_to_bounds(s, cfg, n - 1);
    }
}

proof fn lemma_rel_pos_bounded(s: Skeleton, i: int)
    requires
        s.wf(),
        1 <= i < s.nodes.len(),
    ensures
        gv_bounded(rel_pos(s, i), i * (MAX_LOCAL_COORD as int)),
        gv_bounded(rel_pos(s, i), rel_bound()),
    decreases i,
{
    assert(gv_bounded(s.nodes[i].translation@, MAX_LOCAL_COORD as int));
    match s.nodes[i].parent {
        Option::None => {},
        Option::Some(p) => {
            if 1 <= p < i {
                lemma_rel_pos_bounded(s, p as int);
                assert((p + 1) * (MAX_LOCAL_COORD as int) <= i * (MAX_LOCAL_COORD as int))
                    by (nonlinear_arith)
                    requires p + 1 <= i, MAX_LOCAL_COORD as int > 0;
            }
        },
    }
    assert(i * (MAX_LOCAL_COORD as int) <= rel_bound()) by (nonlinear_arith)
        requires i <= MAX_SKELETON_NODES - 1, MAX_LOCAL_COORD as int > 0;
}

/// Shape determines the mass-bearing count: posing a skeleton never changes
/// which nodes count toward the center of gravity.
pub proof fn lemma_same_shape_mass_count(a: Skeleton, b: Skeleton, cfg: CogConfig, n: int)
    requires
        same_shape(a, b),
        n <= a.nodes.len(),
    ensures
        mass_count_to(a, cfg, n) == mass_count_to(b, cfg, n),
    decreases n,
{
    if n > 1 {
        lemma_same_shape_mass_count(a, b, cfg, n - 1);
    }
}

proof fn lemma_cog_sum_zero_mass(s: Skeleton, cfg: CogConfig, n: int)
    requires
        mass_count_to(s, cfg, n) == 0,
    ensures
        cog_sum_to(s, cfg, n) == gv_zero(),
    decreases n,
{
    if n > 1 {
        lemma_mass_count_to_bounds(s, cfg, n - 1);
        lemma_cog_sum_zero_mass(s, cfg, n - 1);
    }
}

proof fn lemma_mass_at_least_one(s: Skeleton, cfg: CogConfig, j: int, n: int)
    requires
        1 <= j < n,
        spec_mass_bearing(cfg, name_view(s.nodes[j].name)),
    ensures
        mass_count_to(s, cfg, n) >= 1,
    decreases n,
{
    lemma_mass_count_to_bounds(s, cfg, n - 1);
    if j < n - 1 {
        lemma_mass_at_least_one(s, cfg, j, n - 1);
    }
}

proof fn lemma_cog_sum_single(s: Skeleton, cfg: CogConfig, j: int, n: int)
    requires
        1 <= j < n,
        spec_mass_bearing(cfg, name_view(s.nodes[j].name)),
        mass_count_to(s, cfg, n) == 1,
    ensures
        cog_sum_to(s, cfg, n) == rel_pos(s, j),
    decreases n,
{
    if j == n - 1 {
        lemma_cog_sum_zero_mass(s, cfg, n - 1);
    } else {
        lemma_mass_at_least_one(s, cfg, j, n - 1);
        lemma_mass_count_to_bounds(s, cfg, n - 1);
        lemma_cog_sum_single(s, cfg, j, n - 1);
    }
}

/// A center of gravity over exactly one mass-bearing descendant is exactly
/// that descendant's position relative to the root.
pub proof fn lemma_cog_single_mass(s: Skeleton, cfg: CogConfig, j: int)
    requires
        s.wf(),
        1 <= j < s.nodes.len(),
        spec_mass_bearing(cfg, name_view(s.nodes[j].name)),
        mass_count(s, cfg) == 1,
    ensures
        cog_point(s, cfg) == rel_pos(s, j),
{
    lemma_cog_sum_single(s, cfg, j, s.nodes.len() as int);
    let v = rel_pos(s, j);
    assert(v.x >= 0 ==> v.x / 1 == v.x);
    assert(v.x < 0 ==> (-v.x) / 1 == -v.x);
    assert(v.y >= 0 ==> v.y / 1 == v.y);
    assert(v.y < 0 ==> (-v.y) / 1 == -v.y);
    assert(v.z >= 0 ==> v.z / 1 == v.z);
    assert(v.z < 0 ==> (-v.z) / 1 == -v.z);
}

/// Whether this name counts toward the center of gravity.
pub fn is_mass_bearing(cfg: &CogConfig, name: &Option<String>) -> (r: bool)
    ensures
        r == spec_mass_bearing(*cfg, name_view(*name)),
{
    match name {
        Option::None => cfg.unnamed_is_mass_bearing,
        Option::Some(s) => {
            let sl = s.as_str();
            if sl.unicode_len() >= 3 {
                let c0 = sl.get_char(0);
                let c1 = sl.get_char(1);
                let c2 = sl.get_char(2);
                c0 == 'D' && c1 == 'E' && c2 == 'F'
            } else {
                false
            }
        },
    }
}

/// Position of node `i` relative to the root, by walking the ancestor chain
/// and composing the local translations.
fn rel_pos_exec(s: &Skeleton, i: usize) -> (r: Vec3Fixed)
    requires
        s.wf(),
        1 <= i < s.nodes.len(),
    ensures
        r@ == rel_pos(*s, i as int),
        gv_bounded(r@, rel_bound()),
    decreases i,
{
    proof {
        lemma_rel_pos_bounded(*s, i as int);
    }
    let node = &s.nodes[i];
    match node.parent {
        Option::None => node.translation,
        Option::Some(p) => {
            if 1 <= p && p < i {
                let rest = rel_pos_exec(s, p);
                proof {
                    lemma_rel_pos_bounded(*s, p as int);
                }
                node.translation.plus(rest)
            } else {
                node.translation
            }
        },
    }
}

/// The instantaneous weighted center of gravity of the skeleton: the average
/// of the root-relative positions of all mass-bearing descendants of the
/// root. A skeleton with no mass-bearing descendant has no center of
/// gravity; that case is detected and reported, never a division by zero.
pub fn get_cog(s: &Skeleton, cfg: &CogConfig) -> (r: Result<Vec3Fixed, RootMotionError>)
    requires
        s.wf(),
    ensures
        mass_count(*s, *cfg) == 0 ==> (r matches Err(e) && e is ZeroMassNodes),
        mass_count(*s, *cfg) > 0 ==> (r matches Ok(p) && p@ == cog_point(*s, *cfg)),
{
    let n = s.nodes.len();
    let mut sum = Vec3Fixed::zero();
    let mut count: u64 = 0;
    let mut i: usize = 1;
    while i < n
        invariant
            s.wf(),
            n == s.nodes.len(),
            1 <= i <= n,
            count as int == mass_count_to(*s, *cfg, i as int),
            sum@ == cog_sum_to(*s, *cfg, i as int),
            gv_bounded(sum@, (i - 1) * rel_bound()),
        decreases n - i,
    {
        proof {
            lemma_mass_count_to_bounds(*s, *cfg, i as int);
        }
        let node = &s.nodes[i];
        if is_mass_bearing(cfg, &node.name) {
            count = count + 1;
            let rp = rel_pos_exec(s, i);
            proof {
                assert((i - 1) * rel_bound() + rel_bound() == (i as int) * rel_bound())
                    by (nonlinear_arith);
                assert((i as int) * rel_bound() <= sum_bound()) by (nonlinear_arith)
                    requires i <= MAX_SKELETON_NODES, rel_bound() > 0;
            }
            sum = sum.plus(rp);
        } else {
            proof {
                assert((i - 1) * rel_bound() <= (i as int) * rel_bound())
                    by (nonlinear_arith)
                    requires i >= 1, rel_bound() > 0;
            }
        }
        i = i + 1;
    }
    if count == 0 {
        Err(RootMotionError::ZeroMassNodes)
    } else {
        proof {
            assert((n - 1) * rel_bound() <= 0x7FFF_FFFF_FFFF_FFFF) by (nonlinear_arith)
                requires n <= MAX_SKELETON_NODES, rel_bound() == (MAX_SKELETON_NODES - 1) * (
                MAX_LOCAL_COORD as int);
        }
        Ok(vec3_div(sum, count))
    }
}

} // verus!
