//! The conversion pipeline: walk the scenes, optionally fuse the meshes,
//! decompose every group, and render the hulls as output records — one OBJ
//! document per hull, or one JSON document for the whole run.  Writing the
//! records to disk is the caller's business; everything up to the bytes is
//! decided, and verified, here.

use vstd::prelude::*;
use crate::aggregate::{combine_meshes, fused_wm, lemma_off_views, vert_off, w_vert_off};
use crate::decomp::{
    DecompParams,
    FillPolicy,
    GroupOutcome,
    Hull,
    decompose_groups,
    geometry_ok,
    group_hulls,
    group_ok,
};
use crate::jsondoc::{
    emit_json,
    hull_pairs,
    json_doc,
    json_doc_of,
    json_tri_values,
    lemma_json_doc_of,
    shapes_tri_vals,
    tri_vals,
};
use crate::mesh::{MeshError, Tri, Vertex, WorldMesh};
use crate::objdoc::{emit_obj, obj_doc};
use crate::scene::{Scene, WmSpec, scenes_errors, scenes_meshes, walk_scenes, wm_view};
use crate::textenc::{dec_spec, fmt_u64, push_bytes};

verus! {

/// The run-wide configuration, with the documented defaults of `Config::default`.
pub struct Config {
    /// Base name of the input file; names the JSON document.
    pub input_name: Vec<u8>,
    /// Suffix appended to every produced file name, before the extension.
    pub append: Vec<u8>,
    /// Parameters handed to the decomposition service.
    pub params: DecompParams,
    /// Emit one aggregate JSON document instead of per-hull OBJ files.
    pub json_only: bool,
    /// Fuse all meshes into one before decomposition.
    pub combine_meshes: bool,
    /// Report each written file (read by the caller that does the writing).
    pub log_success: bool,
}

/// The default file-name suffix: `-shape`.
pub open spec fn default_append() -> Seq<u8> {
    seq![45u8, 115u8, 104u8, 97u8, 112u8, 101u8]
}

/// The byte string `-shape`.
pub fn default_append_bytes() -> (r: Vec<u8>)
    ensures
        r@ == default_append(),
{
    let mut v: Vec<u8> = Vec::new();
    v.push(45);
    v.push(115);
    v.push(104);
    v.push(97);
    v.push(112);
    v.push(101);
    proof {
        assert(v@ =~= default_append());
    }
    v
}

impl Default for Config {
    /// The documented defaults: empty input name, `-shape` suffix, at most
    /// 1024 hulls, voxel resolution 128, flood fill with cavity detection,
    /// per-hull OBJ output, no fusion, logging on.
    fn default() -> (c: Config)
        ensures
            c.input_name@ == Seq::<u8>::empty(),
            c.append@ == default_append(),
            c.params == (DecompParams {
                max_hulls: 1024u32,
                resolution: 128u32,
                fill: FillPolicy::FloodFill { detect_cavities: true },
            }),
            c.json_only == false,
            c.combine_meshes == false,
            c.log_success == true,
    {
        Config {
            input_name: Vec::new(),
            append: default_append_bytes(),
            params: DecompParams {
                max_hulls: 1024,
                resolution: 128,
                fill: FillPolicy::FloodFill { detect_cavities: true },
            },
            json_only: false,
            combine_meshes: false,
            log_success: true,
        }
    }
}

/// One file to be written: its name and its bytes.
pub struct OutputRecord {
    pub filename: Vec<u8>,
    pub content: Vec<u8>,
}

/// A record as a mathematical value.
#[verifier::ext_equal]
pub ghost struct RecSpec {
    pub filename: Seq<u8>,
    pub content: Seq<u8>,
}

/// The mathematical value of a record.
pub open spec fn rec_view(r: OutputRecord) -> RecSpec {
    RecSpec { filename: r.filename@, content: r.content@ }
}

/// The mathematical values of a record list.
pub open spec fn rec_views(rs: Seq<OutputRecord>) -> Seq<RecSpec> {
    rs.map_values(|x: OutputRecord| rec_view(x))
}

/// `.obj`
pub open spec fn obj_ext() -> Seq<u8> {
    seq![46u8, 111u8, 98u8, 106u8]
}

/// `.json`
pub open spec fn json_ext() -> Seq<u8> {
    seq![46u8, 106u8, 115u8, 111u8, 110u8]
}

/// The OBJ records of one group: hull `i` goes to
/// `<name><i><append>.obj` and holds the hull's OBJ document under the name
/// `<name><i>`.
pub open spec fn group_obj_records(name: Seq<u8>, hulls: Seq<Hull>, append: Seq<u8>) -> Seq<
    RecSpec,
> {
    Seq::new(
        hulls.len(),
        |i: int|
            RecSpec {
                filename: name + dec_spec(i as nat) + append + obj_ext(),
                content: obj_doc(name + dec_spec(i as nat), hulls[i].verts@, hulls[i].tris@),
            },
    )
}

/// The OBJ records of the whole run, group by group; a failed group
/// contributes none.
pub open spec fn outcomes_obj_records(ocs: Seq<GroupOutcome>, append: Seq<u8>) -> Seq<RecSpec>
    decreases ocs.len(),
{
    if ocs.len() == 0 {
        Seq::empty()
    } else {
        outcomes_obj_records(ocs.drop_last(), append) + (match ocs.last() {
            GroupOutcome::Hulls { name, hulls } => group_obj_records(name@, hulls@, append),
            GroupOutcome::Failed => Seq::<RecSpec>::empty(),
        })
    }
}

/// Every hull of every successful group, in order.
pub open spec fn all_hulls(ocs: Seq<GroupOutcome>) -> Seq<Hull>
    decreases ocs.len(),
{
    if ocs.len() == 0 {
        Seq::empty()
    } else {
        (match ocs.first() {
            GroupOutcome::Hulls { name, hulls } => hulls@,
            GroupOutcome::Failed => Seq::<Hull>::empty(),
        }) + all_hulls(ocs.drop_first())
    }
}

proof fn lemma_outcomes_obj_snoc(ocs: Seq<GroupOutcome>, k: int, append: Seq<u8>)
    requires
        0 <= k < ocs.len(),
    ensures
        outcomes_obj_records(ocs.take(k + 1), append) == outcomes_obj_records(ocs.take(k), append)
            + (match ocs[k] {
            GroupOutcome::Hulls { name, hulls } => group_obj_records(name@, hulls@, append),
            GroupOutcome::Failed => Seq::<RecSpec>::empty(),
        }),
{
    assert(ocs.take(k + 1).drop_last() =~= ocs.take(k));
    assert(ocs.take(k + 1).last() == ocs[k]);
}

/// Append `.obj` to a file name.
fn push_obj_ext(f: &mut Vec<u8>)
    ensures
        final(f)@ == old(f)@ + obj_ext(),
{
    f.push(46);
    f.push(111);
    f.push(98);
    f.push(106);
    proof {
        assert(f@ =~= old(f)@ + obj_ext());
    }
}

/// Append `.json` to a file name.
fn push_json_ext(f: &mut Vec<u8>)
    ensures
        final(f)@ == old(f)@ + json_ext(),
{
    f.push(46);
    f.push(106);
    f.push(115);
    f.push(111);
    f.push(110);
    proof {
        assert(f@ =~= old(f)@ + json_ext());
    }
}

/// Render every group's hulls as output records.  In per-hull mode, hull
/// `i` of a group named `n` becomes the file `<n><i><append>.obj` holding
/// its OBJ document; in aggregate mode the whole run becomes the single
/// file `<input><append>.json` holding every hull, and the document's digit
/// lines read back as exactly the emitted triangle indices.
#[verifier::rlimit(80)]
pub fn emit_outputs(
    json_only: bool,
    input_name: &Vec<u8>,
    append: &Vec<u8>,
    outcomes: Vec<GroupOutcome>,
) -> (r: Vec<OutputRecord>)
    ensures
        json_only ==> r@.len() == 1 && rec_view(r@[0]).filename == input_name@ + append@
            + json_ext() && rec_view(r@[0]).content == json_doc(all_hulls(outcomes@))
            && json_tri_values(rec_view(r@[0]).content) == shapes_tri_vals(all_hulls(outcomes@)),
        !json_only ==> rec_views(r@) == outcomes_obj_records(outcomes@, append@),
{
    let ghost goc = outcomes@;
    let mut records: Vec<OutputRecord> = Vec::new();
    if json_only {
        let mut shapes: Vec<Hull> = Vec::new();
        let mut rest = outcomes;
        while rest.len() > 0
            invariant
                shapes@ + all_hulls(rest@) == all_hulls(goc),
            decreases rest@.len(),
        {
            let ghost grest = rest@;
            let oc = rest.remove(0);
            proof {
                assert(rest@ =~= grest.drop_first());
                assert(oc == grest.first());
            }
            match oc {
                GroupOutcome::Hulls { name, hulls } => {
                    let mut hs = hulls;
                    while hs.len() > 0
                        invariant
                            shapes@ + hs@ + all_hulls(rest@) == all_hulls(goc),
                        decreases hs@.len(),
                    {
                        let ghost ghs = hs@;
                        let h = hs.remove(0);
                        proof {
                            assert(hs@ =~= ghs.drop_first());
                            assert(h == ghs.first());
                        }
                        shapes.push(h);
                        proof {
                            assert(shapes@ + hs@ + all_hulls(rest@) =~= all_hulls(goc));
                        }
                    }
                },
                GroupOutcome::Failed => {},
            }
            proof {
                assert(shapes@ + all_hulls(rest@) =~= all_hulls(goc));
            }
        }
        proof {
            assert(all_hulls(rest@) =~= Seq::<Hull>::empty());
            assert(shapes@ =~= all_hulls(goc));
        }
        let content = emit_json(&shapes);
        let mut filename: Vec<u8> = Vec::new();
        push_bytes(&mut filename, input_name);
        push_bytes(&mut filename, append);
        push_json_ext(&mut filename);
        records.push(OutputRecord { filename, content });
    } else {
        let mut k: usize = 0;
        while k < outcomes.len()
            invariant
                k <= goc.len(),
                outcomes@ == goc,
                rec_views(records@) == outcomes_obj_records(goc.take(k as int), append@),
            decreases goc.len() - k,
        {
            match &outcomes[k] {
                GroupOutcome::Hulls { name, hulls } => {
                    let ghost gname = name@;
                    let ghost ghulls = hulls@;
                    let mut i: usize = 0;
                    while i < hulls.len()
                        invariant
                            i <= ghulls.len(),
                            name@ == gname,
                            hulls@ == ghulls,
                            rec_views(records@) == outcomes_obj_records(goc.take(k as int), append@)
                                + group_obj_records(gname, ghulls, append@).take(i as int),
                        decreases ghulls.len() - i,
                    {
                        let ghost old_records = records@;
                        let d = fmt_u64(i as u64);
                        let mut name_i: Vec<u8> = Vec::new();
                        push_bytes(&mut name_i, name);
                        push_bytes(&mut name_i, &d);
                        let content = emit_obj(&name_i, &hulls[i].verts, &hulls[i].tris);
                        let mut filename: Vec<u8> = Vec::new();
                        push_bytes(&mut filename, &name_i);
                        push_bytes(&mut filename, append);
                        push_obj_ext(&mut filename);
                        records.push(OutputRecord { filename, content });
                        proof {
                            let grecs = group_obj_records(gname, ghulls, append@);
                            assert(name_i@ == gname + dec_spec(i as nat));
                            assert(rec_view(records@.last()).filename =~= grecs[i as int].filename);
                            assert(rec_view(records@.last()).content =~= grecs[i as int].content);
                            assert(rec_view(records@.last()) =~~= grecs[i as int]);
                            assert(grecs.take(i + 1) =~= grecs.take(i as int).push(
                                grecs[i as int],
                            ));
                            let lhs = rec_views(records@);
                            let pa = outcomes_obj_records(goc.take(k as int), append@);
                            let rhs = pa + grecs.take(i + 1);
                            assert(i < ghulls.len());
                            assert(grecs.len() == ghulls.len());
                            assert(grecs.take(i + 1).len() == i + 1);
                            assert(records@.drop_last() =~= old_records);
                            assert(rec_views(old_records).len() == pa.len() + i);
                            assert(lhs.len() == records@.len());
                            assert(records@.len() == old_records.len() + 1);
                            assert(lhs.len() == rhs.len());
                            assert forall|n: int| 0 <= n < lhs.len() implies lhs[n] == rhs[n] by {
                                if n < lhs.len() - 1 {
                                    assert(lhs[n] == rec_views(records@.drop_last())[n]);
                                    assert(rec_views(records@.drop_last()) == pa + grecs.take(
                                        i as int,
                                    ));
                                } else {
                                    assert(lhs[n] == rec_view(records@.last()));
                                }
                            }
                            assert(lhs =~= rhs);
                        }
                        i = i + 1;
                    }
                    proof {
                        assert(group_obj_records(gname, ghulls, append@).take(
                            ghulls.len() as int,
                        ) =~= group_obj_records(gname, ghulls, append@));
                    }
                },
                GroupOutcome::Failed => {},
            }
            proof {
                lemma_outcomes_obj_snoc(goc, k as int, append@);
                assert(rec_views(records@) =~~= outcomes_obj_records(goc.take(k + 1), append@));
            }
            k = k + 1;
        }
        proof {
            assert(goc.take(goc.len() as int) =~= goc);
        }
    }
    records
}


/// The OBJ records one world-space mesh is owed: one per hull that the
/// decomposition service assigns to its geometry under the run's
/// parameters, or none when the mesh has no geometry to decompose.
pub open spec fn mesh_obj_records(w: WmSpec, p: DecompParams, append: Seq<u8>) -> Seq<RecSpec> {
    if geometry_ok(w.verts, w.tris) {
        Seq::new(
            group_hulls(p, w.verts, w.tris).len(),
            |i: int|
                RecSpec {
                    filename: w.name + dec_spec(i as nat) + append + obj_ext(),
                    content: obj_doc(
                        w.name + dec_spec(i as nat),
                        group_hulls(p, w.verts, w.tris)[i].0,
                        group_hulls(p, w.verts, w.tris)[i].1,
                    ),
                },
        )
    } else {
        Seq::empty()
    }
}

/// The OBJ records a run over these meshes is owed, mesh by mesh.
pub open spec fn meshes_obj_records(ws: Seq<WmSpec>, p: DecompParams, append: Seq<u8>) -> Seq<
    RecSpec,
>
    decreases ws.len(),
{
    if ws.len() == 0 {
        Seq::empty()
    } else {
        meshes_obj_records(ws.drop_last(), p, append) + mesh_obj_records(ws.last(), p, append)
    }
}

/// The emitted records of the aligned outcomes are exactly the records the
/// groups' geometry is owed.
proof fn lemma_records_align(
    ocs: Seq<GroupOutcome>,
    gs: Seq<WorldMesh>,
    p: DecompParams,
    append: Seq<u8>,
)
    requires
        ocs.len() == gs.len(),
        forall|k: int|
            0 <= k < gs.len() ==> match #[trigger] ocs[k] {
                GroupOutcome::Hulls { name, hulls } => {
                    &&& group_ok(gs[k])
                    &&& name@ == gs[k].name@
                    &&& hulls@.len() == group_hulls(p, gs[k].verts@, gs[k].tris@).len()
                    &&& forall|i: int|
                        0 <= i < hulls@.len() ==> (#[trigger] hulls@[i]).verts@ == group_hulls(
                            p,
                            gs[k].verts@,
                            gs[k].tris@,
                        )[i].0 && hulls@[i].tris@ == group_hulls(p, gs[k].verts@, gs[k].tris@)[i].1
                },
                GroupOutcome::Failed => !group_ok(gs[k]),
            },
    ensures
        outcomes_obj_records(ocs, append) == meshes_obj_records(
            gs.map_values(|m: WorldMesh| wm_view(m)),
            p,
            append,
        ),
    decreases ocs.len(),
{
    let ws = gs.map_values(|m: WorldMesh| wm_view(m));
    if ocs.len() == 0 {
        assert(meshes_obj_records(ws, p, append) == Seq::<RecSpec>::empty());
    } else {
        let n = ocs.len() as int;
        assert(forall|k: int|
            0 <= k < gs.drop_last().len() ==> #[trigger] gs.drop_last()[k] == gs[k]
                && ocs.drop_last()[k] == ocs[k]);
        lemma_records_align(ocs.drop_last(), gs.drop_last(), p, append);
        assert(ws.drop_last() =~= gs.drop_last().map_values(|m: WorldMesh| wm_view(m)));
        assert(ws.last() == wm_view(gs.last()));
        assert(ocs.last() == ocs[n - 1] && gs.last() == gs[n - 1]);
        match ocs[n - 1] {
            GroupOutcome::Hulls { name, hulls } => {
                assert(group_obj_records(name@, hulls@, append) =~~= mesh_obj_records(
                    wm_view(gs[n - 1]),
                    p,
                    append,
                ));
            },
            GroupOutcome::Failed => {
                assert(mesh_obj_records(wm_view(gs[n - 1]), p, append) == Seq::<
                    RecSpec,
                >::empty());
            },
        }
        assert(outcomes_obj_records(ocs, append) =~~= meshes_obj_records(ws, p, append));
    }
}


/// The triangle indices of the hulls one mesh contributes to the JSON
/// document, in emission order.
pub open spec fn mesh_tri_vals(w: WmSpec, p: DecompParams) -> Seq<nat> {
    if geometry_ok(w.verts, w.tris) {
        hull_views_tri_vals(group_hulls(p, w.verts, w.tris))
    } else {
        Seq::empty()
    }
}

/// The triangle indices of a hull list, hull by hull.
pub open spec fn hull_views_tri_vals(hv: Seq<(Seq<Vertex>, Seq<Tri>)>) -> Seq<nat>
    decreases hv.len(),
{
    if hv.len() == 0 {
        Seq::empty()
    } else {
        tri_vals(hv.first().1) + hull_views_tri_vals(hv.drop_first())
    }
}

/// The triangle indices of the whole run's JSON document, mesh by mesh.
pub open spec fn meshes_tri_vals(ws: Seq<WmSpec>, p: DecompParams) -> Seq<nat>
    decreases ws.len(),
{
    if ws.len() == 0 {
        Seq::empty()
    } else {
        mesh_tri_vals(ws.first(), p) + meshes_tri_vals(ws.drop_first(), p)
    }
}

proof fn lemma_shapes_tri_vals_concat(a: Seq<Hull>, b: Seq<Hull>)
    ensures
        shapes_tri_vals(a + b) == shapes_tri_vals(a) + shapes_tri_vals(b),
    decreases a.len(),
{
    if a.len() == 0 {
        assert(a + b =~= b);
        assert(shapes_tri_vals(a) + shapes_tri_vals(b) =~= shapes_tri_vals(b));
    } else {
        assert((a + b).drop_first() =~= a.drop_first() + b);
        assert((a + b).first() == a.first());
        lemma_shapes_tri_vals_concat(a.drop_first(), b);
        assert(shapes_tri_vals(a + b) =~= shapes_tri_vals(a) + shapes_tri_vals(b));
    }
}

proof fn lemma_hulls_tri_vals(hulls: Seq<Hull>, hv: Seq<(Seq<Vertex>, Seq<Tri>)>)
    requires
        hulls.len() == hv.len(),
        forall|i: int|
            0 <= i < hulls.len() ==> (#[trigger] hulls[i]).verts@ == hv[i].0 && hulls[i].tris@
                == hv[i].1,
    ensures
        shapes_tri_vals(hulls) == hull_views_tri_vals(hv),
    decreases hulls.len(),
{
    if hulls.len() > 0 {
        assert(hulls.first() == hulls[0] && hv.first() == hv[0]);
        assert(forall|i: int|
            0 <= i < hulls.drop_first().len() ==> #[trigger] hulls.drop_first()[i] == hulls[i + 1]
                && hv.drop_first()[i] == hv[i + 1]);
        lemma_hulls_tri_vals(hulls.drop_first(), hv.drop_first());
    }
}

/// The collected hulls of the aligned outcomes carry exactly the triangle
/// indices the groups' geometry is owed.
proof fn lemma_json_align(ocs: Seq<GroupOutcome>, gs: Seq<WorldMesh>, p: DecompParams)
    requires
        ocs.len() == gs.len(),
        forall|k: int|
            0 <= k < gs.len() ==> match #[trigger] ocs[k] {
                GroupOutcome::Hulls { name, hulls } => {
                    &&& group_ok(gs[k])
                    &&& hulls@.len() == group_hulls(p, gs[k].verts@, gs[k].tris@).len()
                    &&& forall|i: int|
                        0 <= i < hulls@.len() ==> (#[trigger] hulls@[i]).verts@ == group_hulls(
                            p,
                            gs[k].verts@,
                            gs[k].tris@,
                        )[i].0 && hulls@[i].tris@ == group_hulls(p, gs[k].verts@, gs[k].tris@)[i].1
                },
                GroupOutcome::Failed => !group_ok(gs[k]),
            },
    ensures
        shapes_tri_vals(all_hulls(ocs)) == meshes_tri_vals(
            gs.map_values(|m: WorldMesh| wm_view(m)),
            p,
        ),
    decreases ocs.len(),
{
    let ws = gs.map_values(|m: WorldMesh| wm_view(m));
    if ocs.len() > 0 {
        assert(forall|k: int|
            0 <= k < gs.drop_first().len() ==> #[trigger] gs.drop_first()[k] == gs[k + 1]
                && ocs.drop_first()[k] == ocs[k + 1]);
        lemma_json_align(ocs.drop_first(), gs.drop_first(), p);
        assert(ws.drop_first() =~= gs.drop_first().map_values(|m: WorldMesh| wm_view(m)));
        assert(ws.first() == wm_view(gs.first()));
        assert(ocs.first() == ocs[0] && gs.first() == gs[0]);
        match ocs[0] {
            GroupOutcome::Hulls { name, hulls } => {
                lemma_hulls_tri_vals(hulls@, group_hulls(p, gs[0].verts@, gs[0].tris@));
                lemma_shapes_tri_vals_concat(hulls@, all_hulls(ocs.drop_first()));
                assert(shapes_tri_vals(all_hulls(ocs)) =~= meshes_tri_vals(ws, p));
            },
            GroupOutcome::Failed => {
                assert(all_hulls(ocs) =~= all_hulls(ocs.drop_first()));
                assert(mesh_tri_vals(ws.first(), p) =~= Seq::<nat>::empty());
                assert(shapes_tri_vals(all_hulls(ocs)) =~= meshes_tri_vals(ws, p));
            },
        }
    }
}


/// How many meshes hold geometry the decomposition service must reject
/// (and so are reported as skipped groups when each stands alone).
pub open spec fn degenerate_count(ws: Seq<WmSpec>) -> nat
    decreases ws.len(),
{
    if ws.len() == 0 {
        0
    } else {
        degenerate_count(ws.drop_last()) + (if geometry_ok(ws.last().verts, ws.last().tris) {
            0nat
        } else {
            1nat
        })
    }
}

proof fn lemma_degenerate_snoc(ws: Seq<WmSpec>, k: int)
    requires
        0 <= k < ws.len(),
    ensures
        degenerate_count(ws.take(k + 1)) == degenerate_count(ws.take(k)) + (if geometry_ok(
            ws[k].verts,
            ws[k].tris,
        ) {
            0nat
        } else {
            1nat
        }),
{
    assert(ws.take(k + 1).drop_last() =~= ws.take(k));
    assert(ws.take(k + 1).last() == ws[k]);
}


/// The shape views every run is owed: for each mesh with geometry, the
/// hulls the decomposition service assigns to it, in order; a mesh without
/// geometry contributes none.
pub open spec fn owed_shapes(ws: Seq<WmSpec>, p: DecompParams) -> Seq<(Seq<Vertex>, Seq<Tri>)>
    decreases ws.len(),
{
    if ws.len() == 0 {
        Seq::empty()
    } else {
        (if geometry_ok(ws.first().verts, ws.first().tris) {
            group_hulls(p, ws.first().verts, ws.first().tris)
        } else {
            Seq::empty()
        }) + owed_shapes(ws.drop_first(), p)
    }
}

/// The collected hulls of the aligned outcomes carry exactly the shape
/// views the groups' geometry is owed.
proof fn lemma_owed_align(ocs: Seq<GroupOutcome>, gs: Seq<WorldMesh>, p: DecompParams)
    requires
        ocs.len() == gs.len(),
        forall|k: int|
            0 <= k < gs.len() ==> match #[trigger] ocs[k] {
                GroupOutcome::Hulls { name, hulls } => {
                    &&& group_ok(gs[k])
                    &&& hulls@.len() == group_hulls(p, gs[k].verts@, gs[k].tris@).len()
                    &&& forall|i: int|
                        0 <= i < hulls@.len() ==> (#[trigger] hulls@[i]).verts@ == group_hulls(
                            p,
                            gs[k].verts@,
                            gs[k].tris@,
                        )[i].0 && hulls@[i].tris@ == group_hulls(p, gs[k].verts@, gs[k].tris@)[i].1
                },
                GroupOutcome::Failed => !group_ok(gs[k]),
            },
    ensures
        hull_pairs(all_hulls(ocs)) == owed_shapes(gs.map_values(|m: WorldMesh| wm_view(m)), p),
    decreases ocs.len(),
{
    let ws = gs.map_values(|m: WorldMesh| wm_view(m));
    if ocs.len() > 0 {
        assert(forall|k: int|
            0 <= k < gs.drop_first().len() ==> #[trigger] gs.drop_first()[k] == gs[k + 1]
                && ocs.drop_first()[k] == ocs[k + 1]);
        lemma_owed_align(ocs.drop_first(), gs.drop_first(), p);
        assert(ws.drop_first() =~= gs.drop_first().map_values(|m: WorldMesh| wm_view(m)));
        assert(ws.first() == wm_view(gs.first()));
        assert(ocs.first() == ocs[0] && gs.first() == gs[0]);
        match ocs[0] {
            GroupOutcome::Hulls { name, hulls } => {
                let gh = group_hulls(p, gs[0].verts@, gs[0].tris@);
                assert(hull_pairs(hulls@) =~~= gh) by {
                    assert forall|i: int|
                        0 <= i < hulls@.len() implies hull_pairs(hulls@)[i] =~~= gh[i] by {
                        assert(hull_pairs(hulls@)[i] == (hulls@[i].verts@, hulls@[i].tris@));
                    }
                }
                assert(hull_pairs(hulls@ + all_hulls(ocs.drop_first())) =~= hull_pairs(hulls@)
                    + hull_pairs(all_hulls(ocs.drop_first())));
                assert(hull_pairs(all_hulls(ocs)) =~= owed_shapes(ws, p));
            },
            GroupOutcome::Failed => {
                assert(all_hulls(ocs) =~= all_hulls(ocs.drop_first()));
                assert(owed_shapes(ws, p) =~= owed_shapes(ws.drop_first(), p));
            },
        }
    }
}

/// Whether fusing meshes with these values would overflow the index type.
pub open spec fn fusion_overflows(ws: Seq<WmSpec>) -> bool {
    w_vert_off(ws, ws.len() as int) > u32::MAX
}

/// Whether fusing these meshes would overflow the index type.
pub open spec fn fuse_overflows(ms: Seq<WorldMesh>) -> bool {
    vert_off(ms, ms.len() as int) > u32::MAX
}

/// The total vertex count of the meshes, when an index can hold it.
fn vertex_total_fits(meshes: &Vec<WorldMesh>) -> (r: Option<u32>)
    ensures
        match r {
            Some(n) => !fuse_overflows(meshes@) && n == vert_off(
                meshes@,
                meshes@.len() as int,
            ),
            None => fuse_overflows(meshes@),
        },
{
    let ghost gms = meshes@;
    let mut acc: u64 = 0;
    let mut k: usize = 0;
    while k < meshes.len()
        invariant
            k <= gms.len(),
            meshes@ == gms,
            acc == vert_off(gms, k as int),
            acc <= u32::MAX,
        decreases gms.len() - k,
    {
        proof {
            crate::aggregate::lemma_off_mono(gms, k as int, gms.len() as int);
            crate::aggregate::lemma_off_mono(gms, k + 1, gms.len() as int);
        }
        if meshes[k].verts.len() as u64 > u32::MAX as u64 {
            return None;
        }
        let step: u64 = meshes[k].verts.len() as u64;
        acc = acc + step;
        if acc > u32::MAX as u64 {
            return None;
        }
        k = k + 1;
    }
    Some(acc as u32)
}

/// What one run produced: the records to write, and the reports of the
/// meshes and groups that were skipped.
pub struct RunOutput {
    pub records: Vec<OutputRecord>,
    pub errors: Vec<MeshError>,
}

/// Run the whole pipeline on plain scene data: walk the scenes, fuse the
/// meshes when requested, decompose every group with the run's parameters,
/// and render the hulls as output records.  Each stage's guarantees are
/// carried by its own contract (`walk_scenes`, `combine_meshes`,
/// `decompose_groups`, `emit_outputs`); this function composes them in
/// order and collects every per-mesh and per-group report, aborting only
/// when a requested fusion cannot be indexed.
pub fn convert(scenes: &Vec<Scene>, cfg: &Config) -> (r: RunOutput)
    requires
        cfg.params.wf(),
    ensures
        r.errors@.len() >= scenes_errors(scenes@),
        forall|e: int|
            0 <= e < scenes_errors(scenes@) ==> #[trigger] r.errors@[e]
                == MeshError::MalformedMesh,
        forall|e: int|
            0 <= e < r.errors@.len() ==> #[trigger] r.errors@[e] == MeshError::MalformedMesh
                || r.errors@[e] == MeshError::DecompositionError || r.errors@[e]
                == MeshError::IndexOverflow,
        cfg.json_only ==> r.records@.len() <= 1,
        cfg.json_only ==> (forall|i: int|
            0 <= i < r.records@.len() ==> rec_view(#[trigger] r.records@[i]).filename
                == cfg.input_name@ + cfg.append@ + json_ext()),
        !cfg.json_only && !cfg.combine_meshes ==> rec_views(r.records@) == meshes_obj_records(
            scenes_meshes(scenes@),
            cfg.params,
            cfg.append@,
        ),
        cfg.json_only && !cfg.combine_meshes ==> r.records@.len() == 1 && json_tri_values(
            rec_view(r.records@[0]).content,
        ) == meshes_tri_vals(scenes_meshes(scenes@), cfg.params),
        !cfg.combine_meshes ==> r.errors@.len() == scenes_errors(scenes@) + degenerate_count(
            scenes_meshes(scenes@),
        ),
        cfg.json_only && !cfg.combine_meshes ==> rec_view(r.records@[0]).content == json_doc_of(
            owed_shapes(scenes_meshes(scenes@), cfg.params),
        ),
        cfg.combine_meshes && fusion_overflows(scenes_meshes(scenes@)) ==> r.records@.len() == 0
            && r.errors@.len() == scenes_errors(scenes@) + 1 && r.errors@[r.errors@.len() - 1]
            == MeshError::IndexOverflow,
        cfg.combine_meshes && !fusion_overflows(scenes_meshes(scenes@)) ==> {
            &&& (forall|e: int|
                0 <= e < r.errors@.len() ==> #[trigger] r.errors@[e] != MeshError::IndexOverflow)
            &&& r.errors@.len() == scenes_errors(scenes@) + degenerate_count(
                seq![fused_wm(scenes_meshes(scenes@))],
            )
            &&& (!cfg.json_only ==> rec_views(r.records@) == meshes_obj_records(
                seq![fused_wm(scenes_meshes(scenes@))],
                cfg.params,
                cfg.append@,
            ))
            &&& (cfg.json_only ==> r.records@.len() == 1 && rec_view(r.records@[0]).content
                == json_doc_of(
                owed_shapes(seq![fused_wm(scenes_meshes(scenes@))], cfg.params),
            ) && json_tri_values(rec_view(r.records@[0]).content) == meshes_tri_vals(
                seq![fused_wm(scenes_meshes(scenes@))],
                cfg.params,
            ))
        },
{
    let (meshes, mut errors) = walk_scenes(scenes);
    let groups: Vec<WorldMesh>;
    if cfg.combine_meshes {
        match vertex_total_fits(&meshes) {
            Some(_) => {
                proof {
                    lemma_off_views(meshes@, meshes@.len() as int);
                    assert(!fusion_overflows(scenes_meshes(scenes@)));
                }
                let combined = combine_meshes(&meshes);
                let mut g: Vec<WorldMesh> = Vec::new();
                g.push(combined);
                proof {
                    assert(g@.map_values(|m: WorldMesh| wm_view(m)) =~= seq![
                        fused_wm(scenes_meshes(scenes@)),
                    ]);
                }
                groups = g;
            },
            None => {
                proof {
                    lemma_off_views(meshes@, meshes@.len() as int);
                    assert(fusion_overflows(scenes_meshes(scenes@)));
                }
                errors.push(MeshError::IndexOverflow);
                return RunOutput { records: Vec::new(), errors };
            },
        }
    } else {
        groups = meshes;
    }
    let outcomes = decompose_groups(&cfg.params, &groups);
    let ghost old_error_len = errors@.len();
    let ghost gws = groups@.map_values(|m: WorldMesh| wm_view(m));
    let mut j: usize = 0;
    while j < outcomes.len()
        invariant
            j <= outcomes@.len(),
            outcomes@.len() == groups@.len(),
            gws == groups@.map_values(|m: WorldMesh| wm_view(m)),
            forall|k: int|
                0 <= k < groups@.len() ==> match #[trigger] outcomes@[k] {
                    GroupOutcome::Hulls { .. } => group_ok(groups@[k]),
                    GroupOutcome::Failed => !group_ok(groups@[k]),
                },
            forall|e: int|
                0 <= e < scenes_errors(scenes@) ==> #[trigger] errors@[e]
                    == MeshError::MalformedMesh,
            errors@.len() >= scenes_errors(scenes@),
            errors@.len() == old_error_len + degenerate_count(gws.take(j as int)),
            forall|e: int|
                0 <= e < errors@.len() ==> #[trigger] errors@[e] == MeshError::MalformedMesh
                    || errors@[e] == MeshError::DecompositionError,
        decreases outcomes@.len() - j,
    {
        proof {
            lemma_degenerate_snoc(gws, j as int);
            assert(gws[j as int] == wm_view(groups@[j as int]));
        }
        match &outcomes[j] {
            GroupOutcome::Hulls { .. } => {},
            GroupOutcome::Failed => {
                errors.push(MeshError::DecompositionError);
            },
        }
        j = j + 1;
    }
    proof {
        assert(gws.take(gws.len() as int) =~= gws);
    }
    proof {
        lemma_records_align(outcomes@, groups@, cfg.params, cfg.append@);
        lemma_json_align(outcomes@, groups@, cfg.params);
        lemma_owed_align(outcomes@, groups@, cfg.params);
    }
    let ghost goc = outcomes@;
    let records = emit_outputs(cfg.json_only, &cfg.input_name, &cfg.append, outcomes);
    proof {
        if cfg.json_only {
            lemma_json_doc_of(all_hulls(goc));
        }
    }
    RunOutput { records, errors }
}

} // verus!
