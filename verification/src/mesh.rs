//! Geometry data model: vertices, triangles, meshes, and the extraction of a
//! mesh from its primitives' position and index streams.

use vstd::prelude::*;

verus! {

/// A point in space.  Each coordinate is the bit pattern of an IEEE-754
/// single-precision value; the pipeline moves the bits around but never
/// interprets them arithmetically (scaling and rotation go through trusted
/// calls on the outside crates' scalar type).
#[derive(Clone, Copy, PartialEq, Eq, Structural, Debug)]
pub struct Vertex {
    pub x: u32,
    pub y: u32,
    pub z: u32,
}

/// A triangle: three indices into the vertex list of the mesh it belongs to.
pub type Tri = [u32; 3];

/// Errors of the mesh pipeline.
#[derive(Clone, Copy, PartialEq, Eq, Structural, Debug)]
pub enum MeshError {
    /// An index stream's length is not a multiple of three, or an index does
    /// not name a vertex of its own mesh.
    MalformedMesh,
    /// The external decomposition service cannot work on the group:
    /// no vertices, no triangles, a triangle with a repeated index, or a
    /// degenerate bounding box.
    DecompositionError,
    /// Fusing the meshes would need more vertex indices than an index can hold.
    IndexOverflow,
}

/// One primitive of a scene mesh: an optional position stream and an optional
/// index stream, as the scene loader decoded them.
pub struct Primitive {
    pub positions: Option<Vec<Vertex>>,
    pub indices: Option<Vec<u32>>,
}

/// A local-space geometry fragment: vertices plus triangles over them.
pub struct RawMesh {
    pub verts: Vec<Vertex>,
    pub tris: Vec<Tri>,
}

/// All triangle indices name a vertex of the same mesh.
pub open spec fn tris_in_range(tris: Seq<Tri>, vert_count: int) -> bool {
    forall|j: int, c: int|
        0 <= j < tris.len() && 0 <= c < 3 ==> #[trigger] tris[j][c] < vert_count
}

impl RawMesh {
    /// Well-formedness: every triangle points into this mesh's vertex list.
    pub open spec fn wf(self) -> bool {
        tris_in_range(self.tris@, self.verts@.len() as int)
    }
}

/// A mesh whose vertices have been mapped to world space, together with the
/// display name inherited from its source mesh.
pub struct WorldMesh {
    pub name: Vec<u8>,
    pub verts: Vec<Vertex>,
    pub tris: Vec<Tri>,
}

impl WorldMesh {
    /// Well-formedness: every triangle points into this mesh's vertex list.
    pub open spec fn wf(self) -> bool {
        tris_in_range(self.tris@, self.verts@.len() as int)
    }
}

/// The position stream a primitive contributes (empty when absent).
pub open spec fn prim_positions(p: Primitive) -> Seq<Vertex> {
    match p.positions {
        Some(vs) => vs@,
        None => Seq::empty(),
    }
}

/// The index stream a primitive contributes.  A primitive without a position
/// stream contributes nothing at all; one without an index stream contributes
/// only vertices.
pub open spec fn prim_indices(p: Primitive) -> Seq<u32> {
    if p.positions is None {
        Seq::empty()
    } else {
        match p.indices {
            Some(is) => is@,
            None => Seq::empty(),
        }
    }
}

/// All primitives' position streams, concatenated in order.
pub open spec fn all_positions(prims: Seq<Primitive>) -> Seq<Vertex>
    decreases prims.len(),
{
    if prims.len() == 0 {
        Seq::empty()
    } else {
        all_positions(prims.drop_last()) + prim_positions(prims.last())
    }
}

/// All primitives' index streams, concatenated in order.
pub open spec fn all_indices(prims: Seq<Primitive>) -> Seq<u32>
    decreases prims.len(),
{
    if prims.len() == 0 {
        Seq::empty()
    } else {
        all_indices(prims.drop_last()) + prim_indices(prims.last())
    }
}

/// Consecutive non-overlapping triples of a flat index stream, in order.
pub open spec fn grouped(indices: Seq<u32>, j: int) -> Tri {
    [indices[3 * j], indices[3 * j + 1], indices[3 * j + 2]]
}

/// A primitive list extracts successfully exactly when the concatenated index
/// stream groups into whole triangles and every index names a vertex.
pub open spec fn extract_ok(prims: Seq<Primitive>) -> bool {
    &&& all_indices(prims).len() % 3 == 0
    &&& forall|i: int|
        0 <= i < all_indices(prims).len() ==> #[trigger] all_indices(prims)[i] < all_positions(
            prims,
        ).len()
}

proof fn lemma_all_positions_snoc(s: Seq<Primitive>, k: int)
    requires
        0 <= k < s.len(),
    ensures
        all_positions(s.take(k + 1)) == all_positions(s.take(k)) + prim_positions(s[k]),
{
    assert(s.take(k + 1).drop_last() =~= s.take(k));
    assert(s.take(k + 1).last() == s[k]);
}

proof fn lemma_all_indices_snoc(s: Seq<Primitive>, k: int)
    requires
        0 <= k < s.len(),
    ensures
        all_indices(s.take(k + 1)) == all_indices(s.take(k)) + prim_indices(s[k]),
{
    assert(s.take(k + 1).drop_last() =~= s.take(k));
    assert(s.take(k + 1).last() == s[k]);
}

/// Concatenate all primitives' position streams into one vertex sequence
/// (vertices shared across primitives are duplicated, never deduplicated) and
/// all index streams into one flat sequence, then regroup that sequence into
/// triangles.  Fails with `MalformedMesh` when the flat index stream's length
/// is not a multiple of three or an index does not name a vertex; the caller
/// skips the mesh and reports.
pub fn extract_mesh(prims: &Vec<Primitive>) -> (r: Result<RawMesh, MeshError>)
    ensures
        match r {
            Ok(m) => {
                &&& extract_ok(prims@)
                &&& m.verts@ == all_positions(prims@)
                &&& m.tris@.len() == all_indices(prims@).len() / 3
                &&& forall|j: int, c: int|
                    0 <= j < m.tris@.len() && 0 <= c < 3 ==> #[trigger] m.tris@[j][c] == all_indices(
                        prims@,
                    )[3 * j + c]
                &&& m.wf()
            },
            Err(e) => e == MeshError::MalformedMesh && !extract_ok(prims@),
        },
{
    let mut verts: Vec<Vertex> = Vec::new();
    let mut flat: Vec<u32> = Vec::new();
    let mut k: usize = 0;
    while k < prims.len()
        invariant
            k <= prims@.len(),
            verts@ == all_positions(prims@.take(k as int)),
            flat@ == all_indices(prims@.take(k as int)),
        decreases prims@.len() - k,
    {
        match &prims[k].positions {
            Some(vs) => {
                let mut vi: usize = 0;
                while vi < vs.len()
                    invariant
                        vi <= vs@.len(),
                        verts@ == all_positions(prims@.take(k as int)) + vs@.take(vi as int),
                    decreases vs@.len() - vi,
                {
                    verts.push(vs[vi]);
                    assert(vs@.take(vi + 1) =~= vs@.take(vi as int).push(vs@[vi as int]));
                    vi = vi + 1;
                }
                assert(vs@.take(vs@.len() as int) =~= vs@);
            },
            None => {},
        }
        if prims[k].positions.is_some() {
            match &prims[k].indices {
                Some(is) => {
                    let mut ii: usize = 0;
                    while ii < is.len()
                        invariant
                            ii <= is@.len(),
                            flat@ == all_indices(prims@.take(k as int)) + is@.take(ii as int),
                        decreases is@.len() - ii,
                    {
                        flat.push(is[ii]);
                        assert(is@.take(ii + 1) =~= is@.take(ii as int).push(is@[ii as int]));
                        ii = ii + 1;
                    }
                    assert(is@.take(is@.len() as int) =~= is@);
                },
                None => {},
            }
        }
        proof {
            lemma_all_positions_snoc(prims@, k as int);
            lemma_all_indices_snoc(prims@, k as int);
            assert(verts@ == all_positions(prims@.take(k as int)) + prim_positions(
                prims@[k as int],
            ));
        }
        k = k + 1;
    }
    proof {
        assert(prims@.take(prims@.len() as int) =~= prims@);
    }
    let mut i: usize = 0;
    while i < flat.len()
        invariant
            i <= flat@.len(),
            flat@ == all_indices(prims@),
            verts@ == all_positions(prims@),
            forall|n: int| 0 <= n < i ==> #[trigger] flat@[n] < verts@.len(),
        decreases flat@.len() - i,
    {
        if flat[i] as usize >= verts.len() {
            proof {
                let wi = i as int;
                assert(!(all_indices(prims@)[wi] < all_positions(prims@).len()));
                assert(!extract_ok(prims@)) by {
                    if extract_ok(prims@) {
                        assert(all_indices(prims@)[wi] < all_positions(prims@).len());
                    }
                }
            }
            return Err(MeshError::MalformedMesh);
        }
        i = i + 1;
    }
    let tris = match group_triangles(&flat) {
        Ok(ts) => ts,
        Err(e) => {
            return Err(e);
        },
    };
    Ok(RawMesh { verts, tris })
}

/// Regroup a flat index stream into triangles by taking consecutive
/// non-overlapping triples in their original order.  Rejects a stream whose
/// length is not a multiple of three: truncated trailing indices would
/// otherwise be dropped without signal.
pub fn group_triangles(indices: &Vec<u32>) -> (r: Result<Vec<Tri>, MeshError>)
    ensures
        match r {
            Ok(tris) => {
                &&& indices@.len() % 3 == 0
                &&& tris@.len() == indices@.len() / 3
                &&& forall|j: int, c: int|
                    0 <= j < tris@.len() && 0 <= c < 3 ==> #[trigger] tris@[j][c] == indices@[3 * j
                        + c]
            },
            Err(e) => e == MeshError::MalformedMesh && indices@.len() % 3 != 0,
        },
{
    if indices.len() % 3 != 0 {
        return Err(MeshError::MalformedMesh);
    }
    let mut tris: Vec<Tri> = Vec::new();
    let mut i: usize = 0;
    while i < indices.len()
        invariant
            indices@.len() % 3 == 0,
            i % 3 == 0,
            i <= indices@.len(),
            tris@.len() == i / 3,
            forall|j: int, c: int|
                0 <= j < tris@.len() && 0 <= c < 3 ==> #[trigger] tris@[j][c] == indices@[3 * j
                    + c],
        decreases indices@.len() - i,
    {
        assert(i + 3 <= indices@.len());
        let t: Tri = [indices[i], indices[i + 1], indices[i + 2]];
        tris.push(t);
        i = i + 3;
    }
    Ok(tris)
}

} // verus!
