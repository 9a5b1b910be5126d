//! OBJ emission: one polygon-mesh document per hull, with a name record, one
//! vertex record per point and one face record per triangle, face indices
//! one-based.  The emitter's contract carries the round trip: splitting the
//! emitted bytes back into lines, keeping the face records and reading their
//! numbers yields exactly the hull's triangle indices plus one.

use vstd::prelude::*;
use crate::mesh::{Tri, Vertex};
use crate::textenc::{
    NL,
    SP,
    dec_spec,
    dec_val,
    display_text,
    fmt_real_display,
    fmt_u64,
    lemma_dec_digits,
    lemma_dec_round_trip,
    lemma_join_snoc,
    lemma_split_join,
    lemma_split_prepend,
    lemma_split_single,
    join_lines,
    push_bytes,
    split_at,
};

verus! {

/// The name record: `o <name>`.
pub open spec fn name_line(name: Seq<u8>) -> Seq<u8> {
    seq![111u8, SP] + name
}

/// A vertex record: `v <x> <y> <z>`.
pub open spec fn vert_line(v: Vertex) -> Seq<u8> {
    seq![118u8, SP] + display_text(v.x) + seq![SP] + display_text(v.y) + seq![SP] + display_text(
        v.z,
    )
}

/// A face record: `f <i> <j> <k>`, indices one-based.
pub open spec fn face_line(t: Tri) -> Seq<u8> {
    seq![102u8, SP] + dec_spec((t[0] + 1) as nat) + seq![SP] + dec_spec((t[1] + 1) as nat)
        + seq![SP] + dec_spec((t[2] + 1) as nat)
}

/// The document's lines: the name record, the vertex records, the face
/// records, in that order.
pub open spec fn obj_lines(name: Seq<u8>, verts: Seq<Vertex>, tris: Seq<Tri>) -> Seq<Seq<u8>> {
    seq![name_line(name)] + verts.map_values(|v: Vertex| vert_line(v)) + tris.map_values(
        |t: Tri| face_line(t),
    )
}

/// The whole document.
pub open spec fn obj_doc(name: Seq<u8>, verts: Seq<Vertex>, tris: Seq<Tri>) -> Seq<u8> {
    join_lines(obj_lines(name, verts, tris))
}

/// A face record starts with an `f`.
pub open spec fn is_face_line(l: Seq<u8>) -> bool {
    l.len() > 0 && l[0] == 102
}

/// The face records among a document's lines, in order.
pub open spec fn face_lines(ls: Seq<Seq<u8>>) -> Seq<Seq<u8>>
    decreases ls.len(),
{
    if ls.len() == 0 {
        Seq::empty()
    } else if is_face_line(ls.first()) {
        seq![ls.first()] + face_lines(ls.drop_first())
    } else {
        face_lines(ls.drop_first())
    }
}

/// The numbers of a face record: every space-separated token after the
/// leading `f`, read as a decimal.
pub open spec fn face_values(l: Seq<u8>) -> Seq<nat> {
    split_at(l, SP).skip(1).map_values(|tok: Seq<u8>| dec_val(tok))
}

/// Reading an emitted document back: its face records' numbers, record by
/// record.
pub open spec fn obj_face_indices(s: Seq<u8>) -> Seq<Seq<nat>> {
    face_lines(split_at(s, NL)).map_values(|l: Seq<u8>| face_values(l))
}

proof fn lemma_face_lines_concat(a: Seq<Seq<u8>>, b: Seq<Seq<u8>>)
    ensures
        face_lines(a + b) == face_lines(a) + face_lines(b),
    decreases a.len(),
{
    if a.len() == 0 {
        assert(a + b =~= b);
        assert(face_lines(a) + face_lines(b) =~= face_lines(b));
    } else {
        assert((a + b).drop_first() =~= a.drop_first() + b);
        assert((a + b).first() == a.first());
        lemma_face_lines_concat(a.drop_first(), b);
        if is_face_line(a.first()) {
            assert(seq![a.first()] + (face_lines(a.drop_first()) + face_lines(b)) =~= (seq![
                a.first(),
            ] + face_lines(a.drop_first())) + face_lines(b));
        }
    }
}

proof fn lemma_face_lines_none(ls: Seq<Seq<u8>>)
    requires
        forall|k: int| 0 <= k < ls.len() ==> !is_face_line(#[trigger] ls[k]),
    ensures
        face_lines(ls) == Seq::<Seq<u8>>::empty(),
    decreases ls.len(),
{
    if ls.len() > 0 {
        assert(ls.first() == ls[0]);
        lemma_face_lines_none(ls.drop_first());
    }
}

proof fn lemma_face_lines_all(ls: Seq<Seq<u8>>)
    requires
        forall|k: int| 0 <= k < ls.len() ==> is_face_line(#[trigger] ls[k]),
    ensures
        face_lines(ls) == ls,
    decreases ls.len(),
{
    if ls.len() > 0 {
        assert(ls.first() == ls[0]);
        lemma_face_lines_all(ls.drop_first());
        assert(seq![ls.first()] + ls.drop_first() =~= ls);
    }
}

/// Reading a face record back yields its three one-based indices.
proof fn lemma_face_parse(t: Tri)
    ensures
        face_values(face_line(t)) =~= seq![(t[0] + 1) as nat, (t[1] + 1) as nat, (t[2] + 1) as nat],
{
    let d0 = dec_spec((t[0] + 1) as nat);
    let d1 = dec_spec((t[1] + 1) as nat);
    let d2 = dec_spec((t[2] + 1) as nat);
    lemma_dec_digits((t[0] + 1) as nat);
    lemma_dec_digits((t[1] + 1) as nat);
    lemma_dec_digits((t[2] + 1) as nat);
    let l = face_line(t);
    assert(l =~= seq![102u8] + seq![SP] + (d0 + seq![SP] + (d1 + seq![SP] + d2)));
    lemma_split_prepend(seq![102u8], SP, d0 + seq![SP] + (d1 + seq![SP] + d2));
    assert(d0 + seq![SP] + (d1 + seq![SP] + d2) =~= d0 + seq![SP] + (d1 + seq![SP] + d2));
    lemma_split_prepend(d0, SP, d1 + seq![SP] + d2);
    lemma_split_prepend(d1, SP, d2);
    lemma_split_single(d2, SP);
    assert(split_at(l, SP) =~= seq![seq![102u8], d0, d1, d2]);
    assert(split_at(l, SP).skip(1) =~= seq![d0, d1, d2]);
    lemma_dec_round_trip((t[0] + 1) as nat);
    lemma_dec_round_trip((t[1] + 1) as nat);
    lemma_dec_round_trip((t[2] + 1) as nat);
}

/// Emit one hull as an OBJ document: the name record, one `v` record per
/// vertex, one `f` record per triangle with one-based indices.  When the
/// name itself holds no newline, reading the document back line by line
/// recovers every triangle's indices plus one — and nothing else.
pub fn emit_obj(name: &Vec<u8>, verts: &Vec<Vertex>, tris: &Vec<Tri>) -> (out: Vec<u8>)
    ensures
        out@ == obj_doc(name@, verts@, tris@),
        (forall|i: int| 0 <= i < name@.len() ==> name@[i] != NL) ==> {
            &&& obj_face_indices(out@).len() == tris@.len()
            &&& forall|j: int, c: int|
                0 <= j < tris@.len() && 0 <= c < 3 ==> obj_face_indices(out@)[j][c]
                    == #[trigger] tris@[j][c] + 1
            &&& forall|j: int|
                0 <= j < tris@.len() ==> (#[trigger] obj_face_indices(out@)[j]).len() == 3
        },
{
    let ghost gname = name@;
    let ghost gverts = verts@;
    let ghost gtris = tris@;
    let mut out: Vec<u8> = Vec::new();
    out.push(111);
    out.push(SP);
    push_bytes(&mut out, name);
    out.push(NL);
    proof {
        let ls0 = seq![name_line(gname)];
        assert(out@ =~= name_line(gname) + seq![NL]);
        assert(join_lines(ls0) =~= name_line(gname) + seq![NL]) by {
            assert(ls0.drop_first() =~= Seq::<Seq<u8>>::empty());
            assert(ls0.first() == name_line(gname));
            assert(join_lines(Seq::<Seq<u8>>::empty()) == Seq::<u8>::empty());
        }
    }
    let mut i: usize = 0;
    while i < verts.len()
        invariant
            i <= gverts.len(),
            verts@ == gverts,
            out@ == join_lines(seq![name_line(gname)] + gverts.take(i as int).map_values(
                |v: Vertex| vert_line(v),
            )),
            forall|n: int, b: int|
                0 <= n < i && 0 <= b < vert_line(gverts[n]).len() ==> #[trigger] vert_line(
                    gverts[n],
                )[b] != NL,
        decreases gverts.len() - i,
    {
        let ghost pre = seq![name_line(gname)] + gverts.take(i as int).map_values(
            |v: Vertex| vert_line(v),
        );
        let v = verts[i];
        out.push(118);
        out.push(SP);
        let dx = fmt_real_display(v.x);
        push_bytes(&mut out, &dx);
        out.push(SP);
        let dy = fmt_real_display(v.y);
        push_bytes(&mut out, &dy);
        out.push(SP);
        let dz = fmt_real_display(v.z);
        push_bytes(&mut out, &dz);
        out.push(NL);
        proof {
            lemma_join_snoc(pre, vert_line(gverts[i as int]));
            assert(out@ =~= join_lines(pre) + vert_line(gverts[i as int]) + seq![NL]);
            assert(seq![name_line(gname)] + gverts.take(i + 1).map_values(|v: Vertex| vert_line(v))
                =~= pre.push(vert_line(gverts[i as int])));
            assert forall|b: int| 0 <= b < vert_line(gverts[i as int]).len() implies vert_line(
                gverts[i as int],
            )[b] != NL by {
                assert(vert_line(gverts[i as int]) =~= seq![118u8, SP] + display_text(v.x)
                    + seq![SP] + display_text(v.y) + seq![SP] + display_text(v.z));
            }
        }
        i = i + 1;
    }
    proof {
        assert(gverts.take(gverts.len() as int) =~= gverts);
    }
    let ghost vls = seq![name_line(gname)] + gverts.map_values(|v: Vertex| vert_line(v));
    let mut j: usize = 0;
    while j < tris.len()
        invariant
            j <= gtris.len(),
            tris@ == gtris,
            out@ == join_lines(vls + gtris.take(j as int).map_values(|t: Tri| face_line(t))),
            vls == seq![name_line(gname)] + gverts.map_values(|v: Vertex| vert_line(v)),
        decreases gtris.len() - j,
    {
        let ghost pre = vls + gtris.take(j as int).map_values(|t: Tri| face_line(t));
        let t = tris[j];
        out.push(102);
        out.push(SP);
        let d0 = fmt_u64(t[0] as u64 + 1);
        push_bytes(&mut out, &d0);
        out.push(SP);
        let d1 = fmt_u64(t[1] as u64 + 1);
        push_bytes(&mut out, &d1);
        out.push(SP);
        let d2 = fmt_u64(t[2] as u64 + 1);
        push_bytes(&mut out, &d2);
        out.push(NL);
        proof {
            lemma_join_snoc(pre, face_line(gtris[j as int]));
            assert(out@ =~= join_lines(pre) + face_line(gtris[j as int]) + seq![NL]) by {
                assert(face_line(gtris[j as int]) =~= seq![102u8, SP] + dec_spec(
                    (t[0] + 1) as nat,
                ) + seq![SP] + dec_spec((t[1] + 1) as nat) + seq![SP] + dec_spec((t[2] + 1) as nat));
            }
            assert(vls + gtris.take(j + 1).map_values(|t: Tri| face_line(t)) =~= pre.push(
                face_line(gtris[j as int]),
            ));
        }
        j = j + 1;
    }
    proof {
        assert(gtris.take(gtris.len() as int) =~= gtris);
        assert(vls + gtris.map_values(|t: Tri| face_line(t)) =~= obj_lines(gname, gverts, gtris));
        if forall|i2: int| 0 <= i2 < gname.len() ==> gname[i2] != NL {
            lemma_obj_round_trip_body(gname, gverts, gtris);
        }
    }
    out
}

/// The round trip itself, over the document's line structure: under a
/// newline-free name (and the emitter's own newline-free records), the face
/// records of the document are exactly the emitted triangles' records.
proof fn lemma_obj_round_trip_body(name: Seq<u8>, verts: Seq<Vertex>, tris: Seq<Tri>)
    requires
        forall|i: int| 0 <= i < name.len() ==> name[i] != NL,
        forall|n: int, b: int|
            0 <= n < verts.len() && 0 <= b < vert_line(verts[n]).len() ==> #[trigger] vert_line(
                verts[n],
            )[b] != NL,
    ensures
        obj_face_indices(obj_doc(name, verts, tris)).len() == tris.len(),
        forall|j: int, c: int|
            0 <= j < tris.len() && 0 <= c < 3 ==> obj_face_indices(obj_doc(name, verts, tris))[j][c]
                == #[trigger] tris[j][c] + 1,
        forall|j: int|
            0 <= j < tris.len() ==> (#[trigger] obj_face_indices(obj_doc(name, verts, tris))[
            j]).len() == 3,
{
    let ls = obj_lines(name, verts, tris);
    let nls = seq![name_line(name)];
    let vl = verts.map_values(|v: Vertex| vert_line(v));
    let fl = tris.map_values(|t: Tri| face_line(t));
    assert forall|k: int, i: int|
        0 <= k < ls.len() && 0 <= i < ls[k].len() implies #[trigger] ls[k][i] != NL by {
        if k == 0 {
            assert(ls[0] =~= seq![111u8, SP] + name);
        } else if k < 1 + vl.len() {
            assert(ls[k] == vert_line(verts[k - 1]));
        } else {
            let t = tris[k - 1 - vl.len()];
            assert(ls[k] == face_line(t));
            lemma_dec_digits((t[0] + 1) as nat);
            lemma_dec_digits((t[1] + 1) as nat);
            lemma_dec_digits((t[2] + 1) as nat);
            assert(face_line(t) =~= seq![102u8, SP] + dec_spec((t[0] + 1) as nat) + seq![SP]
                + dec_spec((t[1] + 1) as nat) + seq![SP] + dec_spec((t[2] + 1) as nat));
        }
    }
    lemma_split_join(ls);
    lemma_face_lines_concat(nls + vl, fl);
    lemma_face_lines_concat(nls, vl);
    assert(ls =~= (nls + vl) + fl);
    assert forall|k: int| 0 <= k < nls.len() implies !is_face_line(#[trigger] nls[k]) by {
        assert(nls[0] =~= seq![111u8, SP] + name);
    }
    lemma_face_lines_none(nls);
    assert forall|k: int| 0 <= k < vl.len() implies !is_face_line(#[trigger] vl[k]) by {
        assert(vl[k] == vert_line(verts[k]));
        assert(vert_line(verts[k])[0] == 118);
    }
    lemma_face_lines_none(vl);
    assert forall|k: int| 0 <= k < fl.len() implies is_face_line(#[trigger] fl[k]) by {
        assert(fl[k] == face_line(tris[k]));
        assert(face_line(tris[k])[0] == 102);
    }
    lemma_face_lines_all(fl);
    assert(face_lines(ls) =~= fl);
    assert forall|j: int, c: int|
        0 <= j < tris.len() && 0 <= c < 3 implies obj_face_indices(obj_doc(name, verts, tris))[j][c]
        == #[trigger] tris[j][c] + 1 by {
        assert(fl[j] == face_line(tris[j]));
        lemma_face_parse(tris[j]);
    }
    assert forall|j: int| 0 <= j < tris.len() implies (#[trigger] obj_face_indices(
        obj_doc(name, verts, tris),
    )[j]).len() == 3 by {
        assert(fl[j] == face_line(tris[j]));
        lemma_face_parse(tris[j]);
    }
}

} // verus!
