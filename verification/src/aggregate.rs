//! Mesh aggregation: fusing all world-space meshes into one combined mesh by
//! concatenating the vertex buffers and re-basing each source mesh's triangle
//! indices by the running vertex count of the meshes appended before it.

use vstd::prelude::*;
use crate::mesh::{Tri, Vertex, WorldMesh, tris_in_range};
use crate::scene::{WmSpec, wm_view};
use crate::textenc::push_bytes;

verus! {

/// The number of vertices of the first `k` meshes: the re-basing offset of
/// mesh `k`'s triangle indices.
pub open spec fn vert_off(ms: Seq<WorldMesh>, k: int) -> int
    decreases k,
{
    if k <= 0 {
        0
    } else {
        vert_off(ms, k - 1) + ms[k - 1].verts@.len()
    }
}

/// The number of triangles of the first `k` meshes: where mesh `k`'s
/// triangles start in the combined triangle list.
pub open spec fn tri_off(ms: Seq<WorldMesh>, k: int) -> int
    decreases k,
{
    if k <= 0 {
        0
    } else {
        tri_off(ms, k - 1) + ms[k - 1].tris@.len()
    }
}

/// The offsets read only the first `k` meshes.
proof fn lemma_off_agree(a: Seq<WorldMesh>, b: Seq<WorldMesh>, k: int)
    requires
        forall|j: int| 0 <= j < k ==> a[j] == b[j],
    ensures
        vert_off(a, k) == vert_off(b, k),
        tri_off(a, k) == tri_off(b, k),
    decreases k,
{
    if k > 0 {
        lemma_off_agree(a, b, k - 1);
    }
}

pub proof fn lemma_off_mono(ms: Seq<WorldMesh>, k: int, m: int)
    requires
        0 <= k <= m,
    ensures
        vert_off(ms, k) <= vert_off(ms, m),
        tri_off(ms, k) <= tri_off(ms, m),
        0 <= vert_off(ms, k),
        0 <= tri_off(ms, k),
    decreases m,
{
    lemma_off_nonneg(ms, k);
    if m > k {
        lemma_off_mono(ms, k, m - 1);
    }
}

proof fn lemma_off_nonneg(ms: Seq<WorldMesh>, k: int)
    ensures
        0 <= vert_off(ms, k),
        0 <= tri_off(ms, k),
    decreases k,
{
    if k > 0 {
        lemma_off_nonneg(ms, k - 1);
    }
}

/// The fallback display name of a combined mesh when there is no source mesh
/// to inherit one from.
pub open spec fn unknown_shape_name() -> Seq<u8> {
    seq![85u8, 110u8, 107u8, 110u8, 111u8, 119u8, 110u8, 32u8, 83u8, 104u8, 97u8, 112u8, 101u8]
}

/// The byte string `Unknown Shape`.
pub fn default_shape_name() -> (r: Vec<u8>)
    ensures
        r@ == unknown_shape_name(),
{
    let mut v: Vec<u8> = Vec::new();
    v.push(85);
    v.push(110);
    v.push(107);
    v.push(110);
    v.push(111);
    v.push(119);
    v.push(110);
    v.push(32);
    v.push(83);
    v.push(104);
    v.push(97);
    v.push(112);
    v.push(101);
    proof {
        assert(v@ =~= unknown_shape_name());
    }
    v
}

/// The display name the combined mesh carries: the first source mesh's name,
/// or the fallback when there is none.
pub open spec fn combined_name(ms: Seq<WorldMesh>) -> Seq<u8> {
    if ms.len() > 0 {
        ms[0].name@
    } else {
        unknown_shape_name()
    }
}


/// The vertex count of the first `k` meshes, over mathematical values.
pub open spec fn w_vert_off(ws: Seq<WmSpec>, k: int) -> int
    decreases k,
{
    if k <= 0 {
        0
    } else {
        w_vert_off(ws, k - 1) + ws[k - 1].verts.len()
    }
}

/// The triangle count of the first `k` meshes, over mathematical values.
pub open spec fn w_tri_off(ws: Seq<WmSpec>, k: int) -> int
    decreases k,
{
    if k <= 0 {
        0
    } else {
        w_tri_off(ws, k - 1) + ws[k - 1].tris.len()
    }
}

/// A triangle with every index moved up by the re-basing offset.
pub open spec fn shifted_tri(t: Tri, off: int) -> Tri {
    [((t[0] + off) as u32), ((t[1] + off) as u32), ((t[2] + off) as u32)]
}

/// All vertex buffers concatenated in enumeration order.
pub open spec fn fused_verts(ws: Seq<WmSpec>) -> Seq<Vertex>
    decreases ws.len(),
{
    if ws.len() == 0 {
        Seq::empty()
    } else {
        fused_verts(ws.drop_last()) + ws.last().verts
    }
}

/// All triangle lists concatenated, each re-based by the vertex count of
/// the meshes before it.
pub open spec fn fused_tris(ws: Seq<WmSpec>) -> Seq<Tri>
    decreases ws.len(),
{
    if ws.len() == 0 {
        Seq::empty()
    } else {
        fused_tris(ws.drop_last()) + ws.last().tris.map_values(
            |t: Tri| shifted_tri(t, w_vert_off(ws, ws.len() - 1)),
        )
    }
}

/// The fused mesh as a mathematical value: the first mesh's name (or the
/// fallback), the concatenated vertices, the re-based triangles.
pub open spec fn fused_wm(ws: Seq<WmSpec>) -> WmSpec {
    WmSpec {
        name: if ws.len() > 0 {
            ws[0].name
        } else {
            unknown_shape_name()
        },
        verts: fused_verts(ws),
        tris: fused_tris(ws),
    }
}

proof fn lemma_w_off_agree(a: Seq<WmSpec>, b: Seq<WmSpec>, k: int)
    requires
        forall|j: int| 0 <= j < k ==> a[j] == b[j],
    ensures
        w_vert_off(a, k) == w_vert_off(b, k),
        w_tri_off(a, k) == w_tri_off(b, k),
    decreases k,
{
    if k > 0 {
        lemma_w_off_agree(a, b, k - 1);
    }
}

proof fn lemma_w_off_nonneg(ws: Seq<WmSpec>, k: int)
    ensures
        0 <= w_vert_off(ws, k),
        0 <= w_tri_off(ws, k),
    decreases k,
{
    if k > 0 {
        lemma_w_off_nonneg(ws, k - 1);
    }
}

proof fn lemma_w_off_mono(ws: Seq<WmSpec>, k: int, m: int)
    requires
        0 <= k <= m,
    ensures
        w_vert_off(ws, k) <= w_vert_off(ws, m),
        w_tri_off(ws, k) <= w_tri_off(ws, m),
        0 <= w_vert_off(ws, k),
        0 <= w_tri_off(ws, k),
    decreases m,
{
    lemma_w_off_nonneg(ws, k);
    if m > k {
        lemma_w_off_mono(ws, k, m - 1);
    }
}

/// The offsets over a mesh list and over its mathematical values agree.
pub proof fn lemma_off_views(ms: Seq<WorldMesh>, k: int)
    requires
        k <= ms.len(),
    ensures
        w_vert_off(ms.map_values(|m: WorldMesh| wm_view(m)), k) == vert_off(ms, k),
        w_tri_off(ms.map_values(|m: WorldMesh| wm_view(m)), k) == tri_off(ms, k),
    decreases k,
{
    if k > 0 {
        lemma_off_views(ms, k - 1);
    }
}

proof fn lemma_fused_verts_len(ws: Seq<WmSpec>)
    ensures
        fused_verts(ws).len() == w_vert_off(ws, ws.len() as int),
    decreases ws.len(),
{
    if ws.len() > 0 {
        lemma_fused_verts_len(ws.drop_last());
        lemma_w_off_agree(ws.drop_last(), ws, ws.len() - 1);
    }
}

proof fn lemma_fused_tris_len(ws: Seq<WmSpec>)
    ensures
        fused_tris(ws).len() == w_tri_off(ws, ws.len() as int),
    decreases ws.len(),
{
    if ws.len() > 0 {
        lemma_fused_tris_len(ws.drop_last());
        lemma_w_off_agree(ws.drop_last(), ws, ws.len() - 1);
    }
}

proof fn lemma_fused_verts_index(ws: Seq<WmSpec>, k: int, i: int)
    requires
        0 <= k < ws.len(),
        0 <= i < ws[k].verts.len(),
    ensures
        0 <= w_vert_off(ws, k) + i < fused_verts(ws).len(),
        fused_verts(ws)[w_vert_off(ws, k) + i] == ws[k].verts[i],
    decreases ws.len(),
{
    let n = ws.len() as int;
    lemma_fused_verts_len(ws);
    lemma_w_off_mono(ws, k, n - 1);
    lemma_w_off_mono(ws, k + 1, n);
    lemma_fused_verts_len(ws.drop_last());
    lemma_w_off_agree(ws.drop_last(), ws, n - 1);
    if k == n - 1 {
        assert(fused_verts(ws)[w_vert_off(ws, k) + i] == ws.last().verts[i]);
    } else {
        lemma_w_off_agree(ws.drop_last(), ws, k);
        lemma_w_off_mono(ws.drop_last(), k + 1, n - 1);
        lemma_fused_verts_index(ws.drop_last(), k, i);
    }
}

proof fn lemma_fused_tris_index(ws: Seq<WmSpec>, k: int, j: int)
    requires
        0 <= k < ws.len(),
        0 <= j < ws[k].tris.len(),
    ensures
        0 <= w_tri_off(ws, k) + j < fused_tris(ws).len(),
        fused_tris(ws)[w_tri_off(ws, k) + j] == shifted_tri(ws[k].tris[j], w_vert_off(ws, k)),
    decreases ws.len(),
{
    let n = ws.len() as int;
    lemma_fused_tris_len(ws);
    lemma_w_off_mono(ws, k, n - 1);
    lemma_w_off_mono(ws, k + 1, n);
    lemma_fused_tris_len(ws.drop_last());
    lemma_w_off_agree(ws.drop_last(), ws, n - 1);
    if k == n - 1 {
        assert(fused_tris(ws)[w_tri_off(ws, k) + j] == ws.last().tris.map_values(
            |t: Tri| shifted_tri(t, w_vert_off(ws, n - 1)),
        )[j]);
    } else {
        lemma_w_off_agree(ws.drop_last(), ws, k);
        lemma_w_off_mono(ws.drop_last(), k + 1, n - 1);
        lemma_fused_tris_index(ws.drop_last(), k, j);
    }
}

/// Every slot of the fused vertex list falls inside the span of exactly one
/// source mesh.
proof fn lemma_vert_slot(ws: Seq<WmSpec>, p: int)
    requires
        0 <= p < w_vert_off(ws, ws.len() as int),
    ensures
        exists|k: int|
            0 <= k < ws.len() && #[trigger] w_vert_off(ws, k) <= p < w_vert_off(ws, k)
                + ws[k].verts.len(),
    decreases ws.len(),
{
    let n = ws.len() as int;
    if p >= w_vert_off(ws, n - 1) {
        assert(w_vert_off(ws, n - 1) <= p < w_vert_off(ws, n - 1) + ws[n - 1].verts.len());
    } else {
        lemma_w_off_agree(ws.drop_last(), ws, n - 1);
        lemma_vert_slot(ws.drop_last(), p);
        let k = choose|k: int|
            0 <= k < ws.drop_last().len() && #[trigger] w_vert_off(ws.drop_last(), k) <= p
                < w_vert_off(ws.drop_last(), k) + ws.drop_last()[k].verts.len();
        lemma_w_off_agree(ws.drop_last(), ws, k);
        assert(w_vert_off(ws, k) <= p < w_vert_off(ws, k) + ws[k].verts.len());
    }
}

/// Every slot of the fused triangle list falls inside the span of exactly
/// one source mesh.
proof fn lemma_tri_slot_v(ws: Seq<WmSpec>, p: int)
    requires
        0 <= p < w_tri_off(ws, ws.len() as int),
    ensures
        exists|k: int|
            0 <= k < ws.len() && #[trigger] w_tri_off(ws, k) <= p < w_tri_off(ws, k)
                + ws[k].tris.len(),
    decreases ws.len(),
{
    let n = ws.len() as int;
    if p >= w_tri_off(ws, n - 1) {
        assert(w_tri_off(ws, n - 1) <= p < w_tri_off(ws, n - 1) + ws[n - 1].tris.len());
    } else {
        lemma_w_off_agree(ws.drop_last(), ws, n - 1);
        lemma_tri_slot_v(ws.drop_last(), p);
        let k = choose|k: int|
            0 <= k < ws.drop_last().len() && #[trigger] w_tri_off(ws.drop_last(), k) <= p
                < w_tri_off(ws.drop_last(), k) + ws.drop_last()[k].tris.len();
        lemma_w_off_agree(ws.drop_last(), ws, k);
        assert(w_tri_off(ws, k) <= p < w_tri_off(ws, k) + ws[k].tris.len());
    }
}

/// Produce one combined mesh: all vertex buffers concatenated in enumeration
/// order, and every source mesh's triangle indices re-based by the vertex
/// count of the meshes before it.  Re-basing preserves triangle geometry:
/// a re-based triangle names exactly the vertices its source triangle named
/// in its own mesh (stated in the last two conditions).
pub fn combine_meshes(meshes: &Vec<WorldMesh>) -> (r: WorldMesh)
    requires
        forall|k: int| 0 <= k < meshes@.len() ==> (#[trigger] meshes@[k]).wf(),
        vert_off(meshes@, meshes@.len() as int) <= u32::MAX,
    ensures
        r.name@ == combined_name(meshes@),
        r.verts@.len() == vert_off(meshes@, meshes@.len() as int),
        r.tris@.len() == tri_off(meshes@, meshes@.len() as int),
        forall|k: int, i: int|
            0 <= k < meshes@.len() && 0 <= i < meshes@[k].verts@.len() ==> r.verts@[vert_off(
                meshes@,
                k,
            ) + i] == #[trigger] meshes@[k].verts@[i],
        forall|k: int, j: int, c: int|
            0 <= k < meshes@.len() && 0 <= j < meshes@[k].tris@.len() && 0 <= c < 3
                ==> r.tris@[tri_off(meshes@, k) + j][c] == #[trigger] meshes@[k].tris@[j][c]
                + vert_off(meshes@, k),
        forall|k: int, j: int, c: int|
            0 <= k < meshes@.len() && 0 <= j < meshes@[k].tris@.len() && 0 <= c < 3
                ==> r.verts@[r.tris@[tri_off(meshes@, k) + j][c] as int] == meshes@[k].verts@[(
            #[trigger] meshes@[k].tris@[j][c]) as int],
        r.wf(),
        wm_view(r) == fused_wm(meshes@.map_values(|m: WorldMesh| wm_view(m))),
{
    let ghost gms = meshes@;
    let mut name: Vec<u8> = Vec::new();
    if meshes.len() > 0 {
        push_bytes(&mut name, &meshes[0].name);
    } else {
        let mut d = default_shape_name();
        name.append(&mut d);
    }
    let mut verts: Vec<Vertex> = Vec::new();
    let mut tris: Vec<Tri> = Vec::new();
    let mut k: usize = 0;
    while k < meshes.len()
        invariant
            meshes@ == gms,
            k <= gms.len(),
            forall|k2: int| 0 <= k2 < gms.len() ==> (#[trigger] gms[k2]).wf(),
            vert_off(gms, gms.len() as int) <= u32::MAX,
            verts@.len() == vert_off(gms, k as int),
            tris@.len() == tri_off(gms, k as int),
            forall|k2: int, i: int|
                0 <= k2 < k && 0 <= i < gms[k2].verts@.len() ==> verts@[vert_off(gms, k2) + i]
                    == #[trigger] gms[k2].verts@[i],
            forall|k2: int, j: int, c: int|
                0 <= k2 < k && 0 <= j < gms[k2].tris@.len() && 0 <= c < 3 ==> tris@[tri_off(
                    gms,
                    k2,
                ) + j][c] == #[trigger] gms[k2].tris@[j][c] + vert_off(gms, k2),
        decreases gms.len() - k,
    {
        proof {
            lemma_off_mono(gms, k as int, gms.len() as int);
            lemma_off_mono(gms, k + 1, gms.len() as int);
        }
        let base: u32 = verts.len() as u32;
        let mesh = &meshes[k];
        let mut i: usize = 0;
        while i < mesh.verts.len()
            invariant
                i <= mesh.verts@.len(),
                verts@.len() == vert_off(gms, k as int) + i,
                0 <= vert_off(gms, k as int),
                mesh == &gms[k as int],
                k < gms.len(),
                forall|k2: int, n: int|
                    0 <= k2 < k && 0 <= n < gms[k2].verts@.len() ==> verts@[vert_off(gms, k2) + n]
                        == #[trigger] gms[k2].verts@[n],
                forall|n: int|
                    0 <= n < i ==> verts@[vert_off(gms, k as int) + n] == #[trigger] mesh.verts@[n],
            decreases mesh.verts@.len() - i,
        {
            verts.push(mesh.verts[i]);
            proof {
                assert forall|k2: int, n: int|
                    0 <= k2 < k && 0 <= n < gms[k2].verts@.len() implies verts@[vert_off(gms, k2)
                    + n] == gms[k2].verts@[n] by {
                    lemma_off_mono(gms, k2, k2 + 1);
                    lemma_off_mono(gms, k2 + 1, k as int);
                }
            }
            i = i + 1;
        }
        let mut j: usize = 0;
        while j < mesh.tris.len()
            invariant
                j <= mesh.tris@.len(),
                tris@.len() == tri_off(gms, k as int) + j,
                0 <= tri_off(gms, k as int),
                mesh == &gms[k as int],
                k < gms.len(),
                mesh.wf(),
                base == vert_off(gms, k as int),
                vert_off(gms, k as int) + mesh.verts@.len() <= u32::MAX,
                forall|k2: int, j2: int, c: int|
                    0 <= k2 < k && 0 <= j2 < gms[k2].tris@.len() && 0 <= c < 3 ==> tris@[tri_off(
                        gms,
                        k2,
                    ) + j2][c] == #[trigger] gms[k2].tris@[j2][c] + vert_off(gms, k2),
                forall|j2: int, c: int|
                    0 <= j2 < j && 0 <= c < 3 ==> tris@[tri_off(gms, k as int) + j2][c]
                        == #[trigger] mesh.tris@[j2][c] + vert_off(gms, k as int),
            decreases mesh.tris@.len() - j,
        {
            let t = mesh.tris[j];
            assert(t[0] < mesh.verts@.len() && t[1] < mesh.verts@.len() && t[2]
                < mesh.verts@.len());
            let nt: Tri = [t[0] + base, t[1] + base, t[2] + base];
            tris.push(nt);
            proof {
                assert forall|k2: int, j2: int, c: int|
                    0 <= k2 < k && 0 <= j2 < gms[k2].tris@.len() && 0 <= c < 3 implies tris@[
                tri_off(gms, k2) + j2][c] == gms[k2].tris@[j2][c] + vert_off(gms, k2) by {
                    lemma_off_mono(gms, k2, k2 + 1);
                    lemma_off_mono(gms, k2 + 1, k as int);
                }
            }
            j = j + 1;
        }
        k = k + 1;
    }
    let r = WorldMesh { name, verts, tris };
    proof {
        assert forall|k2: int, j: int, c: int|
            0 <= k2 < gms.len() && 0 <= j < gms[k2].tris@.len() && 0 <= c
                < 3 implies r.verts@[r.tris@[tri_off(gms, k2) + j][c] as int] == gms[k2].verts@[(
        #[trigger] gms[k2].tris@[j][c]) as int] by {
            lemma_off_mono(gms, k2, gms.len() as int);
            lemma_off_mono(gms, k2 + 1, gms.len() as int);
            assert(gms[k2].wf());
            assert(gms[k2].tris@[j][c] < gms[k2].verts@.len());
            assert(r.tris@[tri_off(gms, k2) + j][c] == gms[k2].tris@[j][c] + vert_off(gms, k2));
        }
        assert(tris_in_range(r.tris@, r.verts@.len() as int)) by {
            assert forall|j: int, c: int|
                0 <= j < r.tris@.len() && 0 <= c < 3 implies #[trigger] r.tris@[j][c]
                < r.verts@.len() by {
                lemma_tri_slot(gms, j);
                let k2 = choose|k2: int|
                    0 <= k2 < gms.len() && #[trigger] tri_off(gms, k2) <= j < tri_off(gms, k2)
                        + gms[k2].tris@.len();
                lemma_off_mono(gms, k2, gms.len() as int);
                lemma_off_mono(gms, k2 + 1, gms.len() as int);
                assert(gms[k2].tris@[j - tri_off(gms, k2)][c] < gms[k2].verts@.len());
                assert(r.tris@[tri_off(gms, k2) + (j - tri_off(gms, k2))][c] == gms[k2].tris@[j
                    - tri_off(gms, k2)][c] + vert_off(gms, k2));
            }
        }
        let ws = gms.map_values(|m: WorldMesh| wm_view(m));
        lemma_off_views(gms, gms.len() as int);
        lemma_fused_verts_len(ws);
        lemma_fused_tris_len(ws);
        assert forall|p: int| 0 <= p < r.verts@.len() implies r.verts@[p] == fused_verts(ws)[p] by {
            lemma_vert_slot(ws, p);
            let k2 = choose|k2: int|
                0 <= k2 < ws.len() && #[trigger] w_vert_off(ws, k2) <= p < w_vert_off(ws, k2)
                    + ws[k2].verts.len();
            let i = p - w_vert_off(ws, k2);
            lemma_off_views(gms, k2);
            lemma_fused_verts_index(ws, k2, i);
            assert(ws[k2] == wm_view(gms[k2]));
            assert(r.verts@[vert_off(gms, k2) + i] == gms[k2].verts@[i]);
        }
        assert(r.verts@ =~= fused_verts(ws));
        assert forall|p: int| 0 <= p < r.tris@.len() implies r.tris@[p] == fused_tris(ws)[p] by {
            lemma_tri_slot_v(ws, p);
            let k2 = choose|k2: int|
                0 <= k2 < ws.len() && #[trigger] w_tri_off(ws, k2) <= p < w_tri_off(ws, k2)
                    + ws[k2].tris.len();
            let j = p - w_tri_off(ws, k2);
            lemma_off_views(gms, k2);
            lemma_fused_tris_index(ws, k2, j);
            assert(ws[k2] == wm_view(gms[k2]));
            lemma_off_mono(gms, k2, gms.len() as int);
            lemma_off_mono(gms, k2 + 1, gms.len() as int);
            assert(gms[k2].wf());
            assert forall|c: int| 0 <= c < 3 implies r.tris@[p][c] == fused_tris(ws)[p][c] by {
                assert(gms[k2].tris@[j][c] < gms[k2].verts@.len());
                assert(r.tris@[tri_off(gms, k2) + j][c] == gms[k2].tris@[j][c] + vert_off(
                    gms,
                    k2,
                ));
                assert(fused_tris(ws)[p][c] == shifted_tri(ws[k2].tris[j], w_vert_off(ws, k2))[c]);
            }
            assert(r.tris@[p] =~= fused_tris(ws)[p]);
        }
        assert(r.tris@ =~= fused_tris(ws));
        assert(wm_view(r).name == fused_wm(ws).name) by {
            if gms.len() > 0 {
                assert(ws[0] == wm_view(gms[0]));
            }
        }
        assert(wm_view(r) == fused_wm(ws));
    }
    r
}

/// Every slot of the combined triangle list falls inside the span of exactly
/// one source mesh.
proof fn lemma_tri_slot(ms: Seq<WorldMesh>, j: int)
    requires
        0 <= j < tri_off(ms, ms.len() as int),
    ensures
        exists|k: int|
            0 <= k < ms.len() && #[trigger] tri_off(ms, k) <= j < tri_off(ms, k)
                + ms[k].tris@.len(),
    decreases ms.len(),
{
    let n = ms.len() as int;
    if j >= tri_off(ms, n - 1) {
        assert(tri_off(ms, n - 1) <= j < tri_off(ms, n - 1) + ms[n - 1].tris@.len());
    } else {
        lemma_off_agree(ms.drop_last(), ms, n - 1);
        lemma_tri_slot(ms.drop_last(), j);
        let k = choose|k: int|
            0 <= k < ms.drop_last().len() && #[trigger] tri_off(ms.drop_last(), k) <= j < tri_off(
                ms.drop_last(),
                k,
            ) + ms.drop_last()[k].tris@.len();
        lemma_off_agree(ms.drop_last(), ms, k);
        assert(tri_off(ms, k) <= j < tri_off(ms, k) + ms[k].tris@.len());
    }
}

} // verus!
