//! Scene walking: enumerate every scene's direct node list (the walk does
//! not recurse into child nodes — only top-level scene members are visited,
//! a preserved scope limitation), extract each meshed node's geometry, and
//! map it to world space through the node's transform.  A node whose mesh is
//! malformed is skipped and reported; its siblings are still processed.

use vstd::prelude::*;
use crate::mesh::{
    MeshError,
    Primitive,
    RawMesh,
    Tri,
    Vertex,
    WorldMesh,
    all_indices,
    all_positions,
    extract_mesh,
    extract_ok,
    grouped,
};
use crate::textenc::push_bytes;
use crate::transform::{Transform, apply_transform, world_point};

verus! {

/// A mesh as the scene loader hands it over: an optional display name and
/// the primitive list.
pub struct MeshData {
    pub name: Option<Vec<u8>>,
    pub primitives: Vec<Primitive>,
}

/// One top-level scene node: an optional mesh and the node's local
/// transform.
pub struct SceneNode {
    pub mesh: Option<MeshData>,
    pub transform: Transform,
}

/// One scene: its direct node list.
pub struct Scene {
    pub nodes: Vec<SceneNode>,
}

/// The fallback display name of a mesh without one: `New Obj`.
pub open spec fn new_obj_name() -> Seq<u8> {
    seq![78u8, 101u8, 119u8, 32u8, 79u8, 98u8, 106u8]
}

/// The byte string `New Obj`.
pub fn default_mesh_name() -> (r: Vec<u8>)
    ensures
        r@ == new_obj_name(),
{
    let mut v: Vec<u8> = Vec::new();
    v.push(78);
    v.push(101);
    v.push(119);
    v.push(32);
    v.push(79);
    v.push(98);
    v.push(106);
    proof {
        assert(v@ =~= new_obj_name());
    }
    v
}

/// The display name a mesh resolves to.
pub open spec fn resolved_name(n: Option<Vec<u8>>) -> Seq<u8> {
    match n {
        Some(v) => v@,
        None => new_obj_name(),
    }
}

/// A world-space mesh as a mathematical value.
pub ghost struct WmSpec {
    pub name: Seq<u8>,
    pub verts: Seq<Vertex>,
    pub tris: Seq<Tri>,
}

/// The mathematical value of a world-space mesh.
pub open spec fn wm_view(m: WorldMesh) -> WmSpec {
    WmSpec { name: m.name@, verts: m.verts@, tris: m.tris@ }
}

/// What a node contributes: its extracted mesh mapped to world space, or
/// nothing (no mesh, or a malformed one).
pub open spec fn node_mesh(n: SceneNode) -> Option<WmSpec> {
    match n.mesh {
        Some(md) => if extract_ok(md.primitives@) {
            Some(
                WmSpec {
                    name: resolved_name(md.name),
                    verts: Seq::new(
                        all_positions(md.primitives@).len(),
                        |i: int| world_point(n.transform, all_positions(md.primitives@)[i]),
                    ),
                    tris: Seq::new(
                        all_indices(md.primitives@).len() / 3,
                        |j: int| grouped(all_indices(md.primitives@), j),
                    ),
                },
            )
        } else {
            None
        },
        None => None,
    }
}

/// Whether a node carries a malformed mesh (reported and skipped).
pub open spec fn node_failed(n: SceneNode) -> bool {
    match n.mesh {
        Some(md) => !extract_ok(md.primitives@),
        None => false,
    }
}

/// The meshes a node list yields, in node order.
pub open spec fn nodes_meshes(ns: Seq<SceneNode>) -> Seq<WmSpec>
    decreases ns.len(),
{
    if ns.len() == 0 {
        Seq::empty()
    } else {
        nodes_meshes(ns.drop_last()) + (match node_mesh(ns.last()) {
            Some(w) => seq![w],
            None => Seq::empty(),
        })
    }
}

/// How many malformed meshes a node list holds.
pub open spec fn nodes_errors(ns: Seq<SceneNode>) -> nat
    decreases ns.len(),
{
    if ns.len() == 0 {
        0
    } else {
        nodes_errors(ns.drop_last()) + (if node_failed(ns.last()) {
            1nat
        } else {
            0nat
        })
    }
}

/// The meshes all scenes yield, scene by scene, node by node.
pub open spec fn scenes_meshes(ss: Seq<Scene>) -> Seq<WmSpec>
    decreases ss.len(),
{
    if ss.len() == 0 {
        Seq::empty()
    } else {
        scenes_meshes(ss.drop_last()) + nodes_meshes(ss.last().nodes@)
    }
}

/// How many malformed meshes all scenes hold.
pub open spec fn scenes_errors(ss: Seq<Scene>) -> nat
    decreases ss.len(),
{
    if ss.len() == 0 {
        0
    } else {
        scenes_errors(ss.drop_last()) + nodes_errors(ss.last().nodes@)
    }
}

proof fn lemma_nodes_snoc(ns: Seq<SceneNode>, k: int)
    requires
        0 <= k < ns.len(),
    ensures
        nodes_meshes(ns.take(k + 1)) == nodes_meshes(ns.take(k)) + (match node_mesh(ns[k]) {
            Some(w) => seq![w],
            None => Seq::<WmSpec>::empty(),
        }),
        nodes_errors(ns.take(k + 1)) == nodes_errors(ns.take(k)) + (if node_failed(ns[k]) {
            1nat
        } else {
            0nat
        }),
{
    assert(ns.take(k + 1).drop_last() =~= ns.take(k));
    assert(ns.take(k + 1).last() == ns[k]);
}

proof fn lemma_scenes_snoc(ss: Seq<Scene>, k: int)
    requires
        0 <= k < ss.len(),
    ensures
        scenes_meshes(ss.take(k + 1)) == scenes_meshes(ss.take(k)) + nodes_meshes(ss[k].nodes@),
        scenes_errors(ss.take(k + 1)) == scenes_errors(ss.take(k)) + nodes_errors(ss[k].nodes@),
{
    assert(ss.take(k + 1).drop_last() =~= ss.take(k));
    assert(ss.take(k + 1).last() == ss[k]);
}

/// Resolve a mesh's display name.
fn resolve_name(n: &Option<Vec<u8>>) -> (r: Vec<u8>)
    ensures
        r@ == resolved_name(*n),
{
    match n {
        Some(v) => {
            let mut r: Vec<u8> = Vec::new();
            push_bytes(&mut r, v);
            r
        },
        None => default_mesh_name(),
    }
}

/// Walk every scene's direct node list in order, extract each meshed node's
/// geometry, map it to world space, and collect the world meshes plus one
/// report per malformed mesh.  Nodes without a mesh are skipped without
/// error; a malformed mesh never stops its siblings.
pub fn walk_scenes(scenes: &Vec<Scene>) -> (r: (Vec<WorldMesh>, Vec<MeshError>))
    ensures
        r.0@.map_values(|m: WorldMesh| wm_view(m)) == scenes_meshes(scenes@),
        forall|k: int| 0 <= k < r.0@.len() ==> (#[trigger] r.0@[k]).wf(),
        r.1@.len() == scenes_errors(scenes@),
        forall|e: int| 0 <= e < r.1@.len() ==> r.1@[e] == MeshError::MalformedMesh,
{
    let ghost gss = scenes@;
    let mut meshes: Vec<WorldMesh> = Vec::new();
    let mut errors: Vec<MeshError> = Vec::new();
    let mut s: usize = 0;
    while s < scenes.len()
        invariant
            s <= gss.len(),
            scenes@ == gss,
            meshes@.map_values(|m: WorldMesh| wm_view(m)) == scenes_meshes(gss.take(s as int)),
            forall|k: int| 0 <= k < meshes@.len() ==> (#[trigger] meshes@[k]).wf(),
            errors@.len() == scenes_errors(gss.take(s as int)),
            forall|e: int| 0 <= e < errors@.len() ==> errors@[e] == MeshError::MalformedMesh,
        decreases gss.len() - s,
    {
        let scene = &scenes[s];
        let mut n: usize = 0;
        while n < scene.nodes.len()
            invariant
                n <= scene.nodes@.len(),
                scene == &gss[s as int],
                s < gss.len(),
                meshes@.map_values(|m: WorldMesh| wm_view(m)) == scenes_meshes(gss.take(s as int))
                    + nodes_meshes(scene.nodes@.take(n as int)),
                forall|k: int| 0 <= k < meshes@.len() ==> (#[trigger] meshes@[k]).wf(),
                errors@.len() == scenes_errors(gss.take(s as int)) + nodes_errors(
                    scene.nodes@.take(n as int),
                ),
                forall|e: int| 0 <= e < errors@.len() ==> errors@[e] == MeshError::MalformedMesh,
            decreases scene.nodes@.len() - n,
        {
            let node = &scene.nodes[n];
            match &node.mesh {
                Some(md) => {
                    match extract_mesh(&md.primitives) {
                        Ok(raw) => {
                            let world = apply_transform(&node.transform, raw);
                            let name = resolve_name(&md.name);
                            let wm = WorldMesh { name, verts: world.verts, tris: world.tris };
                            proof {
                                let w = node_mesh(gss[s as int].nodes@[n as int]).unwrap();
                                assert(wm_view(wm).verts =~= w.verts);
                                assert(wm_view(wm).tris =~= w.tris) by {
                                    assert forall|j: int|
                                        0 <= j < wm.tris@.len() implies wm.tris@[j] == grouped(
                                        all_indices(md.primitives@),
                                        j,
                                    ) by {
                                        assert(wm.tris@[j] =~= grouped(
                                            all_indices(md.primitives@),
                                            j,
                                        ));
                                    }
                                }
                                assert(wm_view(wm) == w);
                            }
                            meshes.push(wm);
                            proof {
                                let f = |m: WorldMesh| wm_view(m);
                                assert(meshes@.map_values(f) =~= scenes_meshes(gss.take(s as int))
                                    + nodes_meshes(scene.nodes@.take(n as int)) + seq![
                                    wm_view(wm),
                                ]);
                            }
                        },
                        Err(e) => {
                            errors.push(e);
                        },
                    }
                },
                None => {},
            }
            proof {
                lemma_nodes_snoc(scene.nodes@, n as int);
                let f = |m: WorldMesh| wm_view(m);
                match node_mesh(scene.nodes@[n as int]) {
                    Some(w) => {
                        assert(nodes_meshes(scene.nodes@.take(n + 1)) == nodes_meshes(
                            scene.nodes@.take(n as int),
                        ) + seq![w]);
                    },
                    None => {
                        assert(nodes_meshes(scene.nodes@.take(n + 1)) =~= nodes_meshes(
                            scene.nodes@.take(n as int),
                        ));
                    },
                }
                assert(meshes@.map_values(f) =~= scenes_meshes(gss.take(s as int)) + nodes_meshes(
                    scene.nodes@.take(n + 1),
                ));
            }
            n = n + 1;
        }
        proof {
            lemma_scenes_snoc(gss, s as int);
            assert(scene.nodes@.take(scene.nodes@.len() as int) =~= scene.nodes@);
        }
        s = s + 1;
    }
    proof {
        assert(gss.take(gss.len() as int) =~= gss);
    }
    (meshes, errors)
}

} // verus!
