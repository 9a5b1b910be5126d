//! Transform composition: a node's decomposed translation / rotation / scale
//! applied to local-space vertices, scale first, then rotation, then
//! translation.
//!
//! The floating-point work happens in trusted calls on the outside crates'
//! scalar type; this module's verified code pins down in which order the
//! pieces are composed and that every vertex is mapped, none filtered.

use vstd::prelude::*;
use crate::mesh::{RawMesh, Vertex};
use rapier3d::math::Real;
use rapier3d::na::{Isometry3, Point3, Quaternion, UnitQuaternion, Vector3};

verus! {

/// A node's local transform, decomposed.  Every component is the bit pattern
/// of an IEEE-754 single-precision value.  The rotation quaternion is stored
/// in (x, y, z, w) component order — the order in which the scene loader's
/// decomposition hands it over — and is consumed under that one convention
/// everywhere.
#[derive(Clone, Copy, PartialEq, Eq, Debug)]
pub struct Transform {
    pub translation: [u32; 3],
    pub rotation: [u32; 4],
    pub scale: [u32; 3],
}

/// The product of the two IEEE-754 single-precision values with these bit
/// patterns, as a bit pattern.  A function of its arguments alone.
pub uninterp spec fn scaled_bits(a: u32, b: u32) -> u32;

/// The image of the point `v` under the rigid motion built from `tra` and the
/// (x, y, z, w) quaternion `rot`: the quaternion is converted to Euler angles
/// and rebuilt into a rotation followed by the translation.  A function of
/// its arguments alone.
pub uninterp spec fn rotated_bits(tra: [u32; 3], rot: [u32; 4], v: Vertex) -> Vertex;

/// Component-wise scaling of `v` by the transform's scale vector.
pub open spec fn scaled_vertex(t: Transform, v: Vertex) -> Vertex {
    Vertex { x: scaled_bits(v.x, t.scale[0]), y: scaled_bits(v.y, t.scale[1]), z: scaled_bits(v.z, t.scale[2]) }
}

/// The world-space image of a local-space point: scale each coordinate
/// component-wise, then rotate, then translate.
pub open spec fn world_point(t: Transform, v: Vertex) -> Vertex {
    rotated_bits(t.translation, t.rotation, scaled_vertex(t, v))
}

/// Relies on the multiplication of the scalar type `rapier3d::math::Real`
/// (an IEEE-754 single-precision value), applied to the two bit patterns.
#[verifier::external_body]
fn mul_scalar(a: u32, b: u32) -> (r: u32)
    ensures
        r == scaled_bits(a, b),
{
    (Real::from_bits(a) * Real::from_bits(b)).to_bits()
}

/// Relies on `nalgebra`'s `UnitQuaternion::from_quaternion` /
/// `euler_angles`, `Isometry3::new` and `Isometry3::transform_point` (through
/// the `rapier3d::na` re-export): the quaternion, read in (x, y, z, w) order,
/// is turned into Euler angles, rebuilt into a rotation-plus-translation
/// motion, and applied to the point.
#[verifier::external_body]
fn rotate_translate(t: &Transform, v: Vertex) -> (r: Vertex)
    ensures
        r == rotated_bits(t.translation, t.rotation, v),
{
    let [rx, ry, rz, rw] = t.rotation;
    let [tx, ty, tz] = t.translation;
    let eulers = UnitQuaternion::from_quaternion(Quaternion::new(Real::from_bits(rw), Real::from_bits(rx), Real::from_bits(ry), Real::from_bits(rz))).euler_angles();
    let iso = Isometry3::new(Vector3::new(Real::from_bits(tx), Real::from_bits(ty), Real::from_bits(tz)), Vector3::new(eulers.0, eulers.1, eulers.2));
    let p = iso.transform_point(&Point3::new(Real::from_bits(v.x), Real::from_bits(v.y), Real::from_bits(v.z)));
    Vertex { x: p.x.to_bits(), y: p.y.to_bits(), z: p.z.to_bits() }
}

/// Map one local-space point to world space: scale, then rotate, then
/// translate.
pub fn transform_vertex(t: &Transform, v: Vertex) -> (r: Vertex)
    ensures
        r == world_point(*t, v),
{
    let s = Vertex {
        x: mul_scalar(v.x, t.scale[0]),
        y: mul_scalar(v.y, t.scale[1]),
        z: mul_scalar(v.z, t.scale[2]),
    };
    rotate_translate(t, s)
}

/// Map every vertex of a mesh through the node's transform.  The transform is
/// a bijection on vertex slots, not a filter: the vertex count and the
/// triangle list are unchanged, so well-formedness is preserved.
pub fn apply_transform(t: &Transform, m: RawMesh) -> (w: RawMesh)
    ensures
        w.verts@.len() == m.verts@.len(),
        forall|i: int|
            0 <= i < m.verts@.len() ==> #[trigger] w.verts@[i] == world_point(*t, m.verts@[i]),
        w.tris@ == m.tris@,
        m.wf() ==> w.wf(),
{
    let mut verts: Vec<Vertex> = Vec::new();
    let mut i: usize = 0;
    while i < m.verts.len()
        invariant
            i <= m.verts@.len(),
            verts@.len() == i,
            forall|n: int|
                0 <= n < i ==> #[trigger] verts@[n] == world_point(*t, m.verts@[n]),
        decreases m.verts@.len() - i,
    {
        let v = transform_vertex(t, m.verts[i]);
        verts.push(v);
        i = i + 1;
    }
    RawMesh { verts, tris: m.tris }
}

} // verus!
