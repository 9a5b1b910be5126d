//! Decomposition driver: configuring the external convex-decomposition
//! service and invoking it once per mesh group, with exact hull
//! reconstruction.  A failing group is isolated; the remaining groups are
//! still processed.

use vstd::prelude::*;
use crate::mesh::{MeshError, Tri, Vertex, WorldMesh, tris_in_range};
use crate::textenc::push_bytes;
use rapier3d::math::{Real, Vector};
use rapier3d::parry::transformation::vhacd::{VHACD, VHACDParameters};
use rapier3d::parry::transformation::voxelization::FillMode;

verus! {

/// Fill-mode policy of the voxelization step: flood fill (optionally
/// detecting internal cavities), or surface voxels only.
#[derive(Clone, Copy, PartialEq, Eq, Structural, Debug)]
pub enum FillPolicy {
    FloodFill { detect_cavities: bool },
    SurfaceOnly,
}

/// Decomposition parameters: maximum hull count, voxel grid resolution and
/// fill-mode policy.  Constant for an entire run, not per mesh.
#[derive(Clone, Copy, PartialEq, Eq, Structural, Debug)]
pub struct DecompParams {
    pub max_hulls: u32,
    pub resolution: u32,
    pub fill: FillPolicy,
}

impl DecompParams {
    /// Hull count and resolution are positive, and the resolution is capped:
    /// the voxelizer derives up to `resolution + 2` cells per axis, sizes its
    /// grid with a 32-bit product, and maps coordinates into it with
    /// single-precision arithmetic, so an uncapped resolution could overflow
    /// the product or push a rounded coordinate past the grid's edge.  At
    /// 1024 the product stays below `u32::MAX` and the rounding slack is
    /// orders of magnitude wider than single-precision error.
    pub open spec fn wf(self) -> bool {
        self.max_hulls > 0 && 0 < self.resolution <= 1024
    }
}

#[verifier::external_type_specification]
#[verifier::external_body]
pub struct ExVhacdParameters(VHACDParameters);

#[verifier::external_type_specification]
#[verifier::external_body]
pub struct ExVhacd(VHACD);

/// One convex hull produced by the decomposition service: vertices plus
/// triangles whose indices are local to this hull alone.
pub struct Hull {
    pub verts: Vec<Vertex>,
    pub tris: Vec<Tri>,
}

/// A triangle whose three indices are distinct, as the data model demands;
/// a repeated index makes the triangle degenerate.
pub open spec fn tri_distinct(t: Tri) -> bool {
    t[0] != t[1] && t[1] != t[2] && t[0] != t[2]
}

/// Every triangle's indices are distinct.
pub open spec fn tris_distinct(tris: Seq<Tri>) -> bool {
    forall|j: int| 0 <= j < tris.len() ==> tri_distinct(#[trigger] tris[j])
}

/// Whether some triangle repeats an index.
pub fn check_tris_distinct(tris: &Vec<Tri>) -> (r: bool)
    ensures
        r == tris_distinct(tris@),
{
    let mut j: usize = 0;
    while j < tris.len()
        invariant
            j <= tris@.len(),
            forall|n: int| 0 <= n < j ==> tri_distinct(#[trigger] tris@[n]),
        decreases tris@.len() - j,
    {
        let t = tris[j];
        if t[0] == t[1] || t[1] == t[2] || t[0] == t[2] {
            proof {
                assert(!tri_distinct(tris@[j as int]));
            }
            return false;
        }
        j = j + 1;
    }
    true
}

/// Whether the vertices' bounding box is degenerate: some coordinate
/// non-finite, or no axis with a strictly positive extent (every point
/// identical).  Exactly then the decomposition service's voxelizer derives
/// a zero or non-finite grid scale — its scale comes from the largest axis
/// extent — and collapses.  A function of the vertex bits alone.
pub uninterp spec fn degenerate_extent(verts: Seq<Vertex>) -> bool;

/// Relies on the comparison, `min`/`max` and `is_finite` operations of the
/// scalar type `rapier3d::math::Real`: whether any coordinate is
/// non-finite, or the bounding box has no axis with a strictly positive
/// extent.
#[verifier::external_body]
fn extent_degenerate(verts: &Vec<Vertex>) -> (r: bool)
    ensures
        r == degenerate_extent(verts@),
{
    let mut lo = [Real::INFINITY, Real::INFINITY, Real::INFINITY];
    let mut hi = [Real::NEG_INFINITY, Real::NEG_INFINITY, Real::NEG_INFINITY];
    let mut finite = true;
    for v in verts.iter() {
        let p = [Real::from_bits(v.x), Real::from_bits(v.y), Real::from_bits(v.z)];
        for c in 0..3 {
            finite = finite && p[c].is_finite();
            lo[c] = lo[c].min(p[c]);
            hi[c] = hi[c].max(p[c]);
        }
    }
    !finite || !(lo[0] < hi[0] || lo[1] < hi[1] || lo[2] < hi[2])
}

/// The service's parameter record built from the run's parameters.  A
/// function of the parameters alone.
pub uninterp spec fn vhacd_params_of(p: DecompParams) -> VHACDParameters;

/// The decomposition state the service computes for this parameter record
/// and geometry.  A function of its arguments alone.
pub uninterp spec fn vhacd_of(p: VHACDParameters, verts: Seq<Vertex>, tris: Seq<Tri>) -> VHACD;

/// The exact convex hulls the service reconstructs from a decomposition
/// state and the original geometry: a sequence of (vertices, triangles)
/// pairs.  A function of its arguments alone.
pub uninterp spec fn hulls_of(vh: VHACD, verts: Seq<Vertex>, tris: Seq<Tri>) -> Seq<
    (Seq<Vertex>, Seq<Tri>),
>;

/// Relies on `VHACDParameters::default` (via `rapier3d::parry`): the default
/// record with the run's hull count, resolution and fill mode written over
/// it.
#[verifier::external_body]
fn build_params(p: &DecompParams) -> (r: VHACDParameters)
    ensures
        r == vhacd_params_of(*p),
{
    let mut params = VHACDParameters::default();
    params.max_convex_hulls = p.max_hulls;
    params.resolution = p.resolution;
    params.fill_mode = match p.fill {
        FillPolicy::FloodFill { detect_cavities } => FillMode::FloodFill { detect_cavities },
        FillPolicy::SurfaceOnly => FillMode::SurfaceOnly,
    };
    params
}

/// Relies on `VHACD::decompose` (via `rapier3d::parry`), called with the
/// voxel-to-primitives map kept, so that exact hulls can be reconstructed
/// afterwards.  The geometry must be non-empty, in range, with distinct
/// triangle indices and a non-degenerate bounding box: the service indexes
/// the vertex buffer through the triangle indices, derives its voxel grid
/// scale from the bounding box (a zero or non-finite extent collapses it),
/// and computes convex hulls of its voxel samples while searching split
/// planes.  The parameter record must come from well-formed parameters
/// (`build_params` of a `DecompParams` with the capped resolution): that
/// keeps the voxelizer's grid product within `u32` and its scaled
/// coordinates inside the grid, which its own assertions demand.
#[verifier::external_body]
fn vhacd_decompose(params: &VHACDParameters, verts: &Vec<Vertex>, tris: &Vec<Tri>) -> (r: VHACD)
    requires
        verts@.len() > 0,
        tris@.len() > 0,
        tris_in_range(tris@, verts@.len() as int),
        tris_distinct(tris@),
        !degenerate_extent(verts@),
        exists|p: DecompParams| p.wf() && *params == vhacd_params_of(p),
    ensures
        r == vhacd_of(*params, verts@, tris@),
{
    let pts: Vec<Vector> = verts.iter().map(|v| Vector::new(Real::from_bits(v.x), Real::from_bits(v.y), Real::from_bits(v.z))).collect();
    VHACD::decompose(params, &pts, tris.as_slice(), true)
}

/// Relies on `VHACD::compute_exact_convex_hulls` (via `rapier3d::parry`),
/// handed the same geometry the decomposition state was computed from; the
/// state must come from a decomposition that kept the voxel-to-primitives
/// map, which `vhacd_decompose` always does.  The bounding-box and
/// distinctness bounds keep the voxelizer's scale finite, so every part
/// carries the voxel-to-primitives entries this routine asserts on.
#[verifier::external_body]
fn vhacd_exact_hulls(vh: &VHACD, verts: &Vec<Vertex>, tris: &Vec<Tri>) -> (r: Vec<Hull>)
    requires
        verts@.len() > 0,
        tris@.len() > 0,
        tris_in_range(tris@, verts@.len() as int),
        tris_distinct(tris@),
        !degenerate_extent(verts@),
        exists|p: VHACDParameters| *vh == vhacd_of(p, verts@, tris@),
    ensures
        r@.len() == hulls_of(*vh, verts@, tris@).len(),
        forall|i: int|
            0 <= i < r@.len() ==> (#[trigger] r@[i]).verts@ == hulls_of(*vh, verts@, tris@)[i].0
                && r@[i].tris@ == hulls_of(*vh, verts@, tris@)[i].1,
{
    let pts: Vec<Vector> = verts.iter().map(|v| Vector::new(Real::from_bits(v.x), Real::from_bits(v.y), Real::from_bits(v.z))).collect();
    let hulls = vh.compute_exact_convex_hulls(&pts, tris.as_slice());
    hulls.into_iter().map(|(vs, ts)| Hull { verts: vs.into_iter().map(|q| Vertex { x: q.x.to_bits(), y: q.y.to_bits(), z: q.z.to_bits() }).collect(), tris: ts }).collect()
}

/// Geometry the decomposition service accepts: non-empty, every triangle's
/// indices distinct, and a bounding box with some extent.
pub open spec fn geometry_ok(verts: Seq<Vertex>, tris: Seq<Tri>) -> bool {
    verts.len() > 0 && tris.len() > 0 && tris_distinct(tris) && !degenerate_extent(verts)
}

/// A group can be decomposed exactly when its geometry can.
pub open spec fn group_ok(g: WorldMesh) -> bool {
    geometry_ok(g.verts@, g.tris@)
}

/// The hulls the run's parameters produce for this geometry.
pub open spec fn group_hulls(p: DecompParams, verts: Seq<Vertex>, tris: Seq<Tri>) -> Seq<
    (Seq<Vertex>, Seq<Tri>),
> {
    hulls_of(vhacd_of(vhacd_params_of(p), verts, tris), verts, tris)
}

/// Decompose one mesh group.  Degenerate geometry — no vertices, no
/// triangles, a triangle with a repeated index, or a degenerate bounding
/// box — is rejected with `DecompositionError`, exactly then, so a failing
/// group is skipped while its siblings are still processed.
pub fn decompose_group(params: &DecompParams, mesh: &WorldMesh) -> (r: Result<Vec<Hull>, MeshError>)
    requires
        params.wf(),
        mesh.wf(),
    ensures
        match r {
            Ok(hs) => {
                &&& group_ok(*mesh)
                &&& hs@.len() == group_hulls(*params, mesh.verts@, mesh.tris@).len()
                &&& forall|i: int|
                    0 <= i < hs@.len() ==> (#[trigger] hs@[i]).verts@ == group_hulls(
                        *params,
                        mesh.verts@,
                        mesh.tris@,
                    )[i].0 && hs@[i].tris@ == group_hulls(*params, mesh.verts@, mesh.tris@)[i].1
            },
            Err(e) => e == MeshError::DecompositionError && !group_ok(*mesh),
        },
{
    if mesh.verts.len() == 0 || mesh.tris.len() == 0 {
        return Err(MeshError::DecompositionError);
    }
    if !check_tris_distinct(&mesh.tris) {
        return Err(MeshError::DecompositionError);
    }
    if extent_degenerate(&mesh.verts) {
        return Err(MeshError::DecompositionError);
    }
    let vp = build_params(params);
    proof {
        assert((*params).wf() && vp == vhacd_params_of(*params));
    }
    let vh = vhacd_decompose(&vp, &mesh.verts, &mesh.tris);
    proof {
        assert(vh == vhacd_of(vhacd_params_of(*params), mesh.verts@, mesh.tris@));
    }
    let hulls = vhacd_exact_hulls(&vh, &mesh.verts, &mesh.tris);
    Ok(hulls)
}

/// What one group contributed to the run: its hulls under its display name,
/// or the report that its decomposition was skipped.
pub enum GroupOutcome {
    Hulls { name: Vec<u8>, hulls: Vec<Hull> },
    Failed,
}

/// Decompose every group with the same run-wide parameters, isolating
/// failures: the outcome list is aligned with the group list, and a failed
/// group never hides its siblings' hulls.
pub fn decompose_groups(params: &DecompParams, groups: &Vec<WorldMesh>) -> (r: Vec<GroupOutcome>)
    requires
        params.wf(),
        forall|k: int| 0 <= k < groups@.len() ==> (#[trigger] groups@[k]).wf(),
    ensures
        r@.len() == groups@.len(),
        forall|k: int|
            0 <= k < groups@.len() ==> match #[trigger] r@[k] {
                GroupOutcome::Hulls { name, hulls } => {
                    &&& group_ok(groups@[k])
                    &&& name@ == groups@[k].name@
                    &&& hulls@.len() == group_hulls(
                        *params,
                        groups@[k].verts@,
                        groups@[k].tris@,
                    ).len()
                    &&& forall|i: int|
                        0 <= i < hulls@.len() ==> (#[trigger] hulls@[i]).verts@ == group_hulls(
                            *params,
                            groups@[k].verts@,
                            groups@[k].tris@,
                        )[i].0 && hulls@[i].tris@ == group_hulls(
                            *params,
                            groups@[k].verts@,
                            groups@[k].tris@,
                        )[i].1
                },
                GroupOutcome::Failed => !group_ok(groups@[k]),
            },
{
    let mut r: Vec<GroupOutcome> = Vec::new();
    let mut k: usize = 0;
    while k < groups.len()
        invariant
            params.wf(),
            k <= groups@.len(),
            r@.len() == k,
            forall|k2: int| 0 <= k2 < groups@.len() ==> (#[trigger] groups@[k2]).wf(),
            forall|k2: int|
                0 <= k2 < k ==> match #[trigger] r@[k2] {
                    GroupOutcome::Hulls { name, hulls } => {
                        &&& group_ok(groups@[k2])
                        &&& name@ == groups@[k2].name@
                        &&& hulls@.len() == group_hulls(
                            *params,
                            groups@[k2].verts@,
                            groups@[k2].tris@,
                        ).len()
                        &&& forall|i: int|
                            0 <= i < hulls@.len() ==> (#[trigger] hulls@[i]).verts@ == group_hulls(
                                *params,
                                groups@[k2].verts@,
                                groups@[k2].tris@,
                            )[i].0 && hulls@[i].tris@ == group_hulls(
                                *params,
                                groups@[k2].verts@,
                                groups@[k2].tris@,
                            )[i].1
                    },
                    GroupOutcome::Failed => !group_ok(groups@[k2]),
                },
        decreases groups@.len() - k,
    {
        let outcome = match decompose_group(params, &groups[k]) {
            Ok(hulls) => {
                let mut name: Vec<u8> = Vec::new();
                push_bytes(&mut name, &groups[k].name);
                GroupOutcome::Hulls { name, hulls }
            },
            Err(_) => GroupOutcome::Failed,
        };
        r.push(outcome);
        k = k + 1;
    }
    r
}

} // verus!
