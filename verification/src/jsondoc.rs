//! JSON emission: one pretty-printed document holding every hull, each shape
//! with its point list and its triangle list, triangle indices zero-based —
//! not incremented, unlike the OBJ records.  The emitter's contract carries
//! the round trip: the lines of the document whose first non-space byte is a
//! digit are exactly the triangle indices, in order, with no offset.

use vstd::prelude::*;
use crate::decomp::Hull;
use crate::mesh::{Tri, Vertex};
use crate::textenc::{
    NL,
    SP,
    dec_spec,
    dec_val,
    fmt_real_json,
    fmt_u64,
    join_lines,
    json_number_text,
    lemma_dec_digits,
    lemma_dec_round_trip,
    lemma_join_snoc,
    lemma_split_join,
    lemma_trim_spaces,
    push_bytes,
    spaces,
    split_at,
    trim_sp,
};

verus! {

/// No byte of `s` is a newline.
pub open spec fn nl_free(s: Seq<u8>) -> bool {
    forall|i: int| 0 <= i < s.len() ==> s[i] != NL
}

/// A line: `ind` spaces of indentation, then the body.
pub open spec fn jl(ind: nat, body: Seq<u8>) -> Seq<u8> {
    spaces(ind) + body
}

/// `"shapes": []`
pub open spec fn kw_shapes_empty() -> Seq<u8> {
    seq![34u8, 115u8, 104u8, 97u8, 112u8, 101u8, 115u8, 34u8, 58u8, 32u8, 91u8, 93u8]
}

/// `"shapes": [`
pub open spec fn kw_shapes_open() -> Seq<u8> {
    seq![34u8, 115u8, 104u8, 97u8, 112u8, 101u8, 115u8, 34u8, 58u8, 32u8, 91u8]
}

/// `"points": [],`
pub open spec fn kw_points_empty() -> Seq<u8> {
    seq![34u8, 112u8, 111u8, 105u8, 110u8, 116u8, 115u8, 34u8, 58u8, 32u8, 91u8, 93u8, 44u8]
}

/// `"points": [`
pub open spec fn kw_points_open() -> Seq<u8> {
    seq![34u8, 112u8, 111u8, 105u8, 110u8, 116u8, 115u8, 34u8, 58u8, 32u8, 91u8]
}

/// `"tris": []`
pub open spec fn kw_tris_empty() -> Seq<u8> {
    seq![34u8, 116u8, 114u8, 105u8, 115u8, 34u8, 58u8, 32u8, 91u8, 93u8]
}

/// `"tris": [`
pub open spec fn kw_tris_open() -> Seq<u8> {
    seq![34u8, 116u8, 114u8, 105u8, 115u8, 34u8, 58u8, 32u8, 91u8]
}

/// `{` for the first entry of a list, `, {` for the later ones.
pub open spec fn entry_brace(first: bool) -> Seq<u8> {
    if first {
        seq![123u8]
    } else {
        seq![44u8, 32u8, 123u8]
    }
}

/// `[` for the first entry of a list, `, [` for the later ones.
pub open spec fn entry_bracket(first: bool) -> Seq<u8> {
    if first {
        seq![91u8]
    } else {
        seq![44u8, 32u8, 91u8]
    }
}

/// `"<key>": <number>` with an optional trailing comma.
pub open spec fn coord_body(key: u8, bits: u32, comma: bool) -> Seq<u8> {
    seq![34u8, key, 34u8, 58u8, 32u8] + json_number_text(bits) + (if comma {
        seq![44u8]
    } else {
        Seq::<u8>::empty()
    })
}

/// A triangle index with an optional trailing comma.
pub open spec fn idx_body(v: u32, comma: bool) -> Seq<u8> {
    dec_spec(v as nat) + (if comma {
        seq![44u8]
    } else {
        Seq::<u8>::empty()
    })
}

/// The five lines of one point entry.
pub open spec fn point_entry_lines(v: Vertex, first: bool) -> Seq<Seq<u8>> {
    seq![
        jl(8, entry_brace(first)),
        jl(10, coord_body(120, v.x, true)),
        jl(10, coord_body(121, v.y, true)),
        jl(10, coord_body(122, v.z, false)),
        jl(8, seq![125u8]),
    ]
}

/// The lines of a point list; `first` says whether the first entry here is
/// the first of its array.
pub open spec fn point_list_lines(vs: Seq<Vertex>, first: bool) -> Seq<Seq<u8>>
    decreases vs.len(),
{
    if vs.len() == 0 {
        Seq::empty()
    } else {
        point_entry_lines(vs.first(), first) + point_list_lines(vs.drop_first(), false)
    }
}

/// The five lines of one triangle entry.
pub open spec fn tri_entry_lines(t: Tri, first: bool) -> Seq<Seq<u8>> {
    seq![
        jl(8, entry_bracket(first)),
        jl(10, idx_body(t[0], true)),
        jl(10, idx_body(t[1], true)),
        jl(10, idx_body(t[2], false)),
        jl(8, seq![93u8]),
    ]
}

/// The lines of a triangle list.
pub open spec fn tri_list_lines(ts: Seq<Tri>, first: bool) -> Seq<Seq<u8>>
    decreases ts.len(),
{
    if ts.len() == 0 {
        Seq::empty()
    } else {
        tri_entry_lines(ts.first(), first) + tri_list_lines(ts.drop_first(), false)
    }
}

/// The lines of one shape entry: its point list, then its triangle list.
pub open spec fn shape_entry_lines(vs: Seq<Vertex>, ts: Seq<Tri>, first: bool) -> Seq<Seq<u8>> {
    seq![jl(4, entry_brace(first))] + (if vs.len() == 0 {
        seq![jl(6, kw_points_empty())]
    } else {
        seq![jl(6, kw_points_open())] + point_list_lines(vs, true) + seq![jl(6, seq![93u8, 44u8])]
    }) + (if ts.len() == 0 {
        seq![jl(6, kw_tris_empty())]
    } else {
        seq![jl(6, kw_tris_open())] + tri_list_lines(ts, true) + seq![jl(6, seq![93u8])]
    }) + seq![jl(4, seq![125u8])]
}

/// The lines of the shape list.
pub open spec fn shape_list_lines(ss: Seq<Hull>, first: bool) -> Seq<Seq<u8>>
    decreases ss.len(),
{
    if ss.len() == 0 {
        Seq::empty()
    } else {
        shape_entry_lines(ss.first().verts@, ss.first().tris@, first) + shape_list_lines(
            ss.drop_first(),
            false,
        )
    }
}

/// The lines of the whole document.
pub open spec fn json_lines(ss: Seq<Hull>) -> Seq<Seq<u8>> {
    seq![jl(0, seq![123u8])] + (if ss.len() == 0 {
        seq![jl(2, kw_shapes_empty())]
    } else {
        seq![jl(2, kw_shapes_open())] + shape_list_lines(ss, true) + seq![jl(2, seq![93u8])]
    }) + seq![jl(0, seq![125u8])]
}

/// The whole document.
pub open spec fn json_doc(ss: Seq<Hull>) -> Seq<u8> {
    join_lines(json_lines(ss))
}

/// A line whose first non-space byte is a decimal digit: exactly the
/// triangle index lines of an emitted document.
pub open spec fn is_digit_line(l: Seq<u8>) -> bool {
    trim_sp(l).len() > 0 && 48 <= trim_sp(l)[0] <= 57
}

/// The digit lines among a document's lines, in order.
pub open spec fn digit_lines(ls: Seq<Seq<u8>>) -> Seq<Seq<u8>>
    decreases ls.len(),
{
    if ls.len() == 0 {
        Seq::empty()
    } else if is_digit_line(ls.first()) {
        seq![ls.first()] + digit_lines(ls.drop_first())
    } else {
        digit_lines(ls.drop_first())
    }
}

/// The number a digit line holds, its trailing comma ignored.
pub open spec fn line_value(l: Seq<u8>) -> nat {
    let t = trim_sp(l);
    if t.len() > 0 && t.last() == 44 {
        dec_val(t.drop_last())
    } else {
        dec_val(t)
    }
}

/// Reading an emitted document back: the values of its digit lines.
pub open spec fn json_tri_values(s: Seq<u8>) -> Seq<nat> {
    digit_lines(split_at(s, NL)).map_values(|l: Seq<u8>| line_value(l))
}

/// Every index of every triangle, in emission order.
pub open spec fn tri_vals(ts: Seq<Tri>) -> Seq<nat>
    decreases ts.len(),
{
    if ts.len() == 0 {
        Seq::empty()
    } else {
        seq![ts.first()[0] as nat, ts.first()[1] as nat, ts.first()[2] as nat] + tri_vals(
            ts.drop_first(),
        )
    }
}

/// Every index of every shape's triangles, in emission order.
pub open spec fn shapes_tri_vals(ss: Seq<Hull>) -> Seq<nat>
    decreases ss.len(),
{
    if ss.len() == 0 {
        Seq::empty()
    } else {
        tri_vals(ss.first().tris@) + shapes_tri_vals(ss.drop_first())
    }
}

/// All coordinate texts of these vertices are newline-free.
pub open spec fn coords_nl_free(vs: Seq<Vertex>) -> bool {
    forall|n: int|
        0 <= n < vs.len() ==> nl_free(json_number_text((#[trigger] vs[n]).x)) && nl_free(
            json_number_text(vs[n].y),
        ) && nl_free(json_number_text(vs[n].z))
}

proof fn lemma_digit_lines_concat(a: Seq<Seq<u8>>, b: Seq<Seq<u8>>)
    ensures
        digit_lines(a + b) == digit_lines(a) + digit_lines(b),
    decreases a.len(),
{
    if a.len() == 0 {
        assert(a + b =~= b);
        assert(digit_lines(a) + digit_lines(b) =~= digit_lines(b));
    } else {
        assert((a + b).drop_first() =~= a.drop_first() + b);
        assert((a + b).first() == a.first());
        lemma_digit_lines_concat(a.drop_first(), b);
        if is_digit_line(a.first()) {
            assert(seq![a.first()] + (digit_lines(a.drop_first()) + digit_lines(b)) =~= (seq![
                a.first(),
            ] + digit_lines(a.drop_first())) + digit_lines(b));
        }
    }
}

/// A line with a non-space, non-digit first body byte is no digit line.
proof fn lemma_structural_line(ind: nat, body: Seq<u8>)
    requires
        body.len() > 0,
        body[0] != SP,
        !(48 <= body[0] <= 57),
    ensures
        !is_digit_line(jl(ind, body)),
        trim_sp(jl(ind, body)) == body,
{
    lemma_trim_spaces(ind, body);
}

/// A single structural line contributes no digit line.
proof fn lemma_digit_lines_one(l: Seq<u8>)
    requires
        !is_digit_line(l),
    ensures
        digit_lines(seq![l]) == Seq::<Seq<u8>>::empty(),
{
    assert(seq![l].drop_first() =~= Seq::<Seq<u8>>::empty());
    assert(seq![l].first() == l);
    assert(digit_lines(Seq::<Seq<u8>>::empty()) == Seq::<Seq<u8>>::empty());
}

/// An index line is a digit line holding exactly its index.
proof fn lemma_idx_line(v: u32, comma: bool)
    ensures
        is_digit_line(jl(10, idx_body(v, comma))),
        line_value(jl(10, idx_body(v, comma))) == v as nat,
        nl_free(jl(10, idx_body(v, comma))),
{
    lemma_dec_digits(v as nat);
    lemma_trim_spaces(10, idx_body(v, comma));
    lemma_dec_round_trip(v as nat);
    if comma {
        assert(idx_body(v, comma).drop_last() =~= dec_spec(v as nat));
        assert(idx_body(v, comma).last() == 44);
    } else {
        assert(idx_body(v, comma) =~= dec_spec(v as nat));
        assert(idx_body(v, comma).last() >= 48);
    }
    assert forall|i: int| 0 <= i < jl(10, idx_body(v, comma)).len() implies jl(
        10,
        idx_body(v, comma),
    )[i] != NL by {
        if i >= 10 {
            assert(jl(10, idx_body(v, comma))[i] == idx_body(v, comma)[i - 10]);
        }
    }
}

/// A coordinate line is no digit line and is newline-free when its number
/// text is.
proof fn lemma_coord_line(key: u8, bits: u32, comma: bool)
    requires
        key == 120 || key == 121 || key == 122,
        nl_free(json_number_text(bits)),
    ensures
        !is_digit_line(jl(10, coord_body(key, bits, comma))),
        nl_free(jl(10, coord_body(key, bits, comma))),
{
    lemma_trim_spaces(10, coord_body(key, bits, comma));
    assert(coord_body(key, bits, comma)[0] == 34);
}

/// All lines of a list are newline-free.
pub open spec fn lines_nl_free(ls: Seq<Seq<u8>>) -> bool {
    forall|k: int| 0 <= k < ls.len() ==> nl_free(#[trigger] ls[k])
}

/// A point entry yields no digit line.
proof fn lemma_point_entry(v: Vertex, first: bool)
    requires
        nl_free(json_number_text(v.x)),
        nl_free(json_number_text(v.y)),
        nl_free(json_number_text(v.z)),
    ensures
        digit_lines(point_entry_lines(v, first)) == Seq::<Seq<u8>>::empty(),
        lines_nl_free(point_entry_lines(v, first)),
{
    let ls = point_entry_lines(v, first);
    lemma_structural_line(8, entry_brace(first));
    lemma_coord_line(120, v.x, true);
    lemma_coord_line(121, v.y, true);
    lemma_coord_line(122, v.z, false);
    lemma_structural_line(8, seq![125u8]);
    assert(digit_lines(ls) =~= Seq::<Seq<u8>>::empty()) by {
        let a0 = jl(8, entry_brace(first));
        let a1 = jl(10, coord_body(120, v.x, true));
        let a2 = jl(10, coord_body(121, v.y, true));
        let a3 = jl(10, coord_body(122, v.z, false));
        let a4 = jl(8, seq![125u8]);
        let l1 = ls.drop_first();
        let l2 = l1.drop_first();
        let l3 = l2.drop_first();
        let l4 = l3.drop_first();
        assert(ls.first() == a0);
        assert(l1 =~= seq![a1, a2, a3, a4]);
        assert(l1.first() == a1);
        assert(l2 =~= seq![a2, a3, a4]);
        assert(l2.first() == a2);
        assert(l3 =~= seq![a3, a4]);
        assert(l3.first() == a3);
        assert(l4 =~= seq![a4]);
        assert(l4.first() == a4);
        assert(l4.drop_first() =~= Seq::<Seq<u8>>::empty());
        assert(digit_lines(Seq::<Seq<u8>>::empty()) == Seq::<Seq<u8>>::empty());
        assert(digit_lines(l4) =~= Seq::<Seq<u8>>::empty());
        assert(digit_lines(l3) =~= Seq::<Seq<u8>>::empty());
        assert(digit_lines(l2) =~= Seq::<Seq<u8>>::empty());
        assert(digit_lines(l1) =~= Seq::<Seq<u8>>::empty());
    }
    assert forall|k: int| 0 <= k < ls.len() implies nl_free(#[trigger] ls[k]) by {
        assert(nl_free(spaces(8) + entry_brace(first))) by {
            assert(forall|i: int|
                0 <= i < entry_brace(first).len() ==> (#[trigger] entry_brace(first)[i]) != NL);
        }
        assert(nl_free(spaces(8) + seq![125u8]));
    }
}

/// A point list yields no digit line.
proof fn lemma_point_list(vs: Seq<Vertex>, first: bool)
    requires
        coords_nl_free(vs),
    ensures
        digit_lines(point_list_lines(vs, first)) == Seq::<Seq<u8>>::empty(),
        lines_nl_free(point_list_lines(vs, first)),
    decreases vs.len(),
{
    if vs.len() > 0 {
        assert(vs.first() == vs[0]);
        assert(coords_nl_free(vs.drop_first())) by {
            assert(forall|n: int|
                0 <= n < vs.drop_first().len() ==> #[trigger] vs.drop_first()[n] == vs[n + 1]);
        }
        lemma_point_entry(vs.first(), first);
        lemma_point_list(vs.drop_first(), false);
        lemma_digit_lines_concat(
            point_entry_lines(vs.first(), first),
            point_list_lines(vs.drop_first(), false),
        );
        assert(lines_nl_free(point_list_lines(vs, first))) by {
            let a = point_entry_lines(vs.first(), first);
            let b = point_list_lines(vs.drop_first(), false);
            assert(forall|k: int|
                0 <= k < (a + b).len() ==> (#[trigger] (a + b)[k]) == if k < a.len() {
                    a[k]
                } else {
                    b[k - a.len()]
                });
        }
    }
}

/// A triangle entry's digit lines are exactly its three indices.
proof fn lemma_tri_entry(t: Tri, first: bool)
    ensures
        digit_lines(tri_entry_lines(t, first)).map_values(|l: Seq<u8>| line_value(l)) =~= seq![
            t[0] as nat,
            t[1] as nat,
            t[2] as nat,
        ],
        lines_nl_free(tri_entry_lines(t, first)),
{
    let ls = tri_entry_lines(t, first);
    lemma_structural_line(8, entry_bracket(first));
    lemma_idx_line(t[0], true);
    lemma_idx_line(t[1], true);
    lemma_idx_line(t[2], false);
    lemma_structural_line(8, seq![93u8]);
    let a0 = jl(8, entry_bracket(first));
    let a1 = jl(10, idx_body(t[0], true));
    let a2 = jl(10, idx_body(t[1], true));
    let a3 = jl(10, idx_body(t[2], false));
    let a4 = jl(8, seq![93u8]);
    let l1 = ls.drop_first();
    let l2 = l1.drop_first();
    let l3 = l2.drop_first();
    let l4 = l3.drop_first();
    assert(ls.first() == a0);
    assert(l1 =~= seq![a1, a2, a3, a4]);
    assert(l1.first() == a1);
    assert(l2 =~= seq![a2, a3, a4]);
    assert(l2.first() == a2);
    assert(l3 =~= seq![a3, a4]);
    assert(l3.first() == a3);
    assert(l4 =~= seq![a4]);
    assert(l4.first() == a4);
    assert(l4.drop_first() =~= Seq::<Seq<u8>>::empty());
    assert(digit_lines(Seq::<Seq<u8>>::empty()) == Seq::<Seq<u8>>::empty());
    assert(digit_lines(l4) =~= Seq::<Seq<u8>>::empty());
    assert(digit_lines(l3) =~= seq![a3]);
    assert(digit_lines(l2) =~= seq![a2, a3]);
    assert(digit_lines(l1) =~= seq![a1, a2, a3]);
    assert(digit_lines(ls) =~= seq![a1, a2, a3]);
    assert forall|k: int| 0 <= k < ls.len() implies nl_free(#[trigger] ls[k]) by {
        assert(nl_free(spaces(8) + entry_bracket(first))) by {
            assert(forall|i: int|
                0 <= i < entry_bracket(first).len() ==> (#[trigger] entry_bracket(first)[i])
                    != NL);
        }
        assert(nl_free(spaces(8) + seq![93u8]));
    }
}

/// A triangle list's digit lines hold exactly its indices, in order.
proof fn lemma_tri_list(ts: Seq<Tri>, first: bool)
    ensures
        digit_lines(tri_list_lines(ts, first)).map_values(|l: Seq<u8>| line_value(l)) =~= tri_vals(
            ts,
        ),
        lines_nl_free(tri_list_lines(ts, first)),
    decreases ts.len(),
{
    if ts.len() > 0 {
        lemma_tri_entry(ts.first(), first);
        lemma_tri_list(ts.drop_first(), false);
        let a = tri_entry_lines(ts.first(), first);
        let b = tri_list_lines(ts.drop_first(), false);
        lemma_digit_lines_concat(a, b);
        assert(digit_lines(a + b).map_values(|l: Seq<u8>| line_value(l)) =~= digit_lines(
            a,
        ).map_values(|l: Seq<u8>| line_value(l)) + digit_lines(b).map_values(
            |l: Seq<u8>| line_value(l),
        ));
        assert(lines_nl_free(tri_list_lines(ts, first))) by {
            assert(forall|k: int|
                0 <= k < (a + b).len() ==> (#[trigger] (a + b)[k]) == if k < a.len() {
                    a[k]
                } else {
                    b[k - a.len()]
                });
        }
    }
}

/// A shape entry's digit lines hold exactly its triangle indices.
proof fn lemma_shape_entry(vs: Seq<Vertex>, ts: Seq<Tri>, first: bool)
    requires
        coords_nl_free(vs),
    ensures
        digit_lines(shape_entry_lines(vs, ts, first)).map_values(|l: Seq<u8>| line_value(l))
            =~= tri_vals(ts),
        lines_nl_free(shape_entry_lines(vs, ts, first)),
{
    let open = seq![jl(4, entry_brace(first))];
    let pts = if vs.len() == 0 {
        seq![jl(6, kw_points_empty())]
    } else {
        seq![jl(6, kw_points_open())] + point_list_lines(vs, true) + seq![jl(6, seq![93u8, 44u8])]
    };
    let trs = if ts.len() == 0 {
        seq![jl(6, kw_tris_empty())]
    } else {
        seq![jl(6, kw_tris_open())] + tri_list_lines(ts, true) + seq![jl(6, seq![93u8])]
    };
    let close = seq![jl(4, seq![125u8])];
    lemma_structural_line(4, entry_brace(first));
    lemma_structural_line(4, seq![125u8]);
    lemma_structural_line(6, kw_points_empty());
    lemma_structural_line(6, kw_points_open());
    lemma_structural_line(6, kw_tris_empty());
    lemma_structural_line(6, kw_tris_open());
    lemma_structural_line(6, seq![93u8, 44u8]);
    lemma_structural_line(6, seq![93u8]);
    lemma_digit_lines_one(jl(4, entry_brace(first)));
    lemma_digit_lines_one(jl(4, seq![125u8]));
    lemma_point_list(vs, true);
    lemma_tri_list(ts, true);
    lemma_digit_lines_concat(open, pts);
    lemma_digit_lines_concat(open + pts, trs);
    lemma_digit_lines_concat(open + pts + trs, close);
    assert(digit_lines(pts) =~= Seq::<Seq<u8>>::empty()) by {
        if vs.len() == 0 {
            lemma_digit_lines_one(jl(6, kw_points_empty()));
        } else {
            lemma_digit_lines_one(jl(6, kw_points_open()));
            lemma_digit_lines_one(jl(6, seq![93u8, 44u8]));
            lemma_digit_lines_concat(seq![jl(6, kw_points_open())], point_list_lines(vs, true));
            lemma_digit_lines_concat(
                seq![jl(6, kw_points_open())] + point_list_lines(vs, true),
                seq![jl(6, seq![93u8, 44u8])],
            );
        }
    }
    assert(digit_lines(trs).map_values(|l: Seq<u8>| line_value(l)) =~= tri_vals(ts)) by {
        if ts.len() == 0 {
            lemma_digit_lines_one(jl(6, kw_tris_empty()));
        } else {
            lemma_digit_lines_one(jl(6, kw_tris_open()));
            lemma_digit_lines_one(jl(6, seq![93u8]));
            lemma_digit_lines_concat(seq![jl(6, kw_tris_open())], tri_list_lines(ts, true));
            lemma_digit_lines_concat(
                seq![jl(6, kw_tris_open())] + tri_list_lines(ts, true),
                seq![jl(6, seq![93u8])],
            );
            assert(digit_lines(trs) =~= digit_lines(tri_list_lines(ts, true)));
        }
    }
    assert(digit_lines(shape_entry_lines(vs, ts, first)) =~= digit_lines(trs));
    assert(lines_nl_free(shape_entry_lines(vs, ts, first))) by {
        let all = open + pts + trs + close;
        assert(forall|k: int|
            0 <= k < pts.len() ==> nl_free(#[trigger] pts[k]));
        assert(forall|k: int|
            0 <= k < trs.len() ==> nl_free(#[trigger] trs[k]));
        assert(forall|k: int|
            0 <= k < all.len() ==> nl_free(#[trigger] all[k]));
    }
}

/// The shape list's digit lines hold exactly all triangle indices, in order.
proof fn lemma_shape_list(ss: Seq<Hull>, first: bool)
    requires
        forall|k: int| 0 <= k < ss.len() ==> coords_nl_free((#[trigger] ss[k]).verts@),
    ensures
        digit_lines(shape_list_lines(ss, first)).map_values(|l: Seq<u8>| line_value(l))
            =~= shapes_tri_vals(ss),
        lines_nl_free(shape_list_lines(ss, first)),
    decreases ss.len(),
{
    if ss.len() > 0 {
        assert(ss.first() == ss[0]);
        assert(forall|k: int|
            0 <= k < ss.drop_first().len() ==> #[trigger] ss.drop_first()[k] == ss[k + 1]);
        lemma_shape_entry(ss.first().verts@, ss.first().tris@, first);
        lemma_shape_list(ss.drop_first(), false);
        let a = shape_entry_lines(ss.first().verts@, ss.first().tris@, first);
        let b = shape_list_lines(ss.drop_first(), false);
        lemma_digit_lines_concat(a, b);
        assert(digit_lines(a + b).map_values(|l: Seq<u8>| line_value(l)) =~= digit_lines(
            a,
        ).map_values(|l: Seq<u8>| line_value(l)) + digit_lines(b).map_values(
            |l: Seq<u8>| line_value(l),
        ));
        assert(lines_nl_free(shape_list_lines(ss, first))) by {
            assert(forall|k: int|
                0 <= k < (a + b).len() ==> (#[trigger] (a + b)[k]) == if k < a.len() {
                    a[k]
                } else {
                    b[k - a.len()]
                });
        }
    }
}

/// The document round trip: the digit lines of the emitted document hold
/// exactly every shape's triangle indices, zero-based, in order.
proof fn lemma_json_round_trip(ss: Seq<Hull>)
    requires
        forall|k: int| 0 <= k < ss.len() ==> coords_nl_free((#[trigger] ss[k]).verts@),
    ensures
        json_tri_values(json_doc(ss)) =~= shapes_tri_vals(ss),
{
    let open = seq![jl(0, seq![123u8])];
    let mid = if ss.len() == 0 {
        seq![jl(2, kw_shapes_empty())]
    } else {
        seq![jl(2, kw_shapes_open())] + shape_list_lines(ss, true) + seq![jl(2, seq![93u8])]
    };
    let close = seq![jl(0, seq![125u8])];
    lemma_structural_line(0, seq![123u8]);
    lemma_structural_line(0, seq![125u8]);
    lemma_structural_line(2, kw_shapes_empty());
    lemma_structural_line(2, kw_shapes_open());
    lemma_structural_line(2, seq![93u8]);
    lemma_digit_lines_one(jl(0, seq![123u8]));
    lemma_digit_lines_one(jl(0, seq![125u8]));
    lemma_shape_list(ss, true);
    let ls = json_lines(ss);
    assert(ls =~= open + mid + close);
    assert(forall|k: int| 0 <= k < mid.len() ==> nl_free(#[trigger] mid[k])) by {
        if ss.len() > 0 {
            let sl = shape_list_lines(ss, true);
            assert(forall|k: int|
                0 <= k < mid.len() ==> (#[trigger] mid[k]) == if k == 0 {
                    jl(2, kw_shapes_open())
                } else if k < 1 + sl.len() {
                    sl[k - 1]
                } else {
                    jl(2, seq![93u8])
                });
        }
    }
    assert forall|k: int, i: int|
        0 <= k < ls.len() && 0 <= i < ls[k].len() implies #[trigger] ls[k][i] != NL by {
        assert(nl_free(ls[k])) by {
            assert(forall|k2: int|
                0 <= k2 < ls.len() ==> (#[trigger] ls[k2]) == if k2 == 0 {
                    open[0]
                } else if k2 < 1 + mid.len() {
                    mid[k2 - 1]
                } else {
                    close[0]
                });
        }
    }
    lemma_split_join(ls);
    lemma_digit_lines_concat(open, mid);
    lemma_digit_lines_concat(open + mid, close);
    assert(digit_lines(ls) =~= digit_lines(mid));
    if ss.len() == 0 {
        lemma_digit_lines_one(jl(2, kw_shapes_empty()));
        assert(shapes_tri_vals(ss) =~= Seq::<nat>::empty());
    } else {
        lemma_digit_lines_one(jl(2, kw_shapes_open()));
        lemma_digit_lines_one(jl(2, seq![93u8]));
        lemma_digit_lines_concat(seq![jl(2, kw_shapes_open())], shape_list_lines(ss, true));
        lemma_digit_lines_concat(
            seq![jl(2, kw_shapes_open())] + shape_list_lines(ss, true),
            seq![jl(2, seq![93u8])],
        );
        assert(digit_lines(mid) =~= digit_lines(shape_list_lines(ss, true)));
    }
}


proof fn lemma_point_list_snoc(s: Seq<Vertex>, v: Vertex, f: bool)
    ensures
        point_list_lines(s.push(v), f) == point_list_lines(s, f) + point_entry_lines(
            v,
            f && s.len() == 0,
        ),
    decreases s.len(),
{
    if s.len() == 0 {
        assert(s.push(v).first() == v);
        assert(s.push(v).drop_first() =~= Seq::<Vertex>::empty());
        assert(point_list_lines(Seq::<Vertex>::empty(), false) == Seq::<Seq<u8>>::empty());
        assert(point_list_lines(s.push(v), f) == point_entry_lines(v, f) + point_list_lines(
            Seq::<Vertex>::empty(),
            false,
        ));
        assert(point_list_lines(s.push(v), f) =~= point_list_lines(s, f) + point_entry_lines(
            v,
            f,
        ));
    } else {
        assert(s.push(v).first() == s.first());
        assert(s.push(v).drop_first() =~= s.drop_first().push(v));
        lemma_point_list_snoc(s.drop_first(), v, false);
        assert(point_list_lines(s.push(v), f) =~= point_list_lines(s, f) + point_entry_lines(
            v,
            f && s.len() == 0,
        ));
    }
}

proof fn lemma_tri_list_snoc(s: Seq<Tri>, t: Tri, f: bool)
    ensures
        tri_list_lines(s.push(t), f) == tri_list_lines(s, f) + tri_entry_lines(
            t,
            f && s.len() == 0,
        ),
    decreases s.len(),
{
    if s.len() == 0 {
        assert(s.push(t).first() == t);
        assert(s.push(t).drop_first() =~= Seq::<Tri>::empty());
        assert(tri_list_lines(Seq::<Tri>::empty(), false) == Seq::<Seq<u8>>::empty());
        assert(tri_list_lines(s.push(t), f) == tri_entry_lines(t, f) + tri_list_lines(
            Seq::<Tri>::empty(),
            false,
        ));
        assert(tri_list_lines(s.push(t), f) =~= tri_list_lines(s, f) + tri_entry_lines(t, f));
    } else {
        assert(s.push(t).first() == s.first());
        assert(s.push(t).drop_first() =~= s.drop_first().push(t));
        lemma_tri_list_snoc(s.drop_first(), t, false);
        assert(tri_list_lines(s.push(t), f) =~= tri_list_lines(s, f) + tri_entry_lines(
            t,
            f && s.len() == 0,
        ));
    }
}

proof fn lemma_shape_list_snoc(s: Seq<Hull>, h: Hull, f: bool)
    ensures
        shape_list_lines(s.push(h), f) == shape_list_lines(s, f) + shape_entry_lines(
            h.verts@,
            h.tris@,
            f && s.len() == 0,
        ),
    decreases s.len(),
{
    if s.len() == 0 {
        assert(s.push(h).first() == h);
        assert(s.push(h).drop_first() =~= Seq::<Hull>::empty());
        assert(shape_list_lines(Seq::<Hull>::empty(), false) == Seq::<Seq<u8>>::empty());
        assert(shape_list_lines(s.push(h), f) == shape_entry_lines(h.verts@, h.tris@, f)
            + shape_list_lines(Seq::<Hull>::empty(), false));
        assert(shape_list_lines(s.push(h), f) =~= shape_list_lines(s, f) + shape_entry_lines(
            h.verts@,
            h.tris@,
            f,
        ));
    } else {
        assert(s.push(h).first() == s.first());
        assert(s.push(h).drop_first() =~= s.drop_first().push(h));
        lemma_shape_list_snoc(s.drop_first(), h, false);
        assert(shape_list_lines(s.push(h), f) =~= shape_list_lines(s, f) + shape_entry_lines(
            h.verts@,
            h.tris@,
            f && s.len() == 0,
        ));
    }
}

/// A line of `ind` spaces, ready for its body.
fn open_line(ind: usize) -> (l: Vec<u8>)
    ensures
        l@ == spaces(ind as nat),
{
    let mut l: Vec<u8> = Vec::new();
    let mut i: usize = 0;
    while i < ind
        invariant
            i <= ind,
            l@ == spaces(i as nat),
        decreases ind - i,
    {
        l.push(SP);
        proof {
            assert(spaces((i + 1) as nat) =~= spaces(i as nat).push(SP));
        }
        i = i + 1;
    }
    l
}

/// The views of the collected lines.
pub open spec fn line_views(lines: Seq<Vec<u8>>) -> Seq<Seq<u8>> {
    lines.map_values(|l: Vec<u8>| l@)
}


/// Append `"shapes": [` (or `"shapes": []`).
fn push_kw_shapes(l: &mut Vec<u8>, empty: bool)
    ensures
        final(l)@ == old(l)@ + (if empty {
            kw_shapes_empty()
        } else {
            kw_shapes_open()
        }),
{
    l.push(34);
    l.push(115);
    l.push(104);
    l.push(97);
    l.push(112);
    l.push(101);
    l.push(115);
    l.push(34);
    l.push(58);
    l.push(32);
    l.push(91);
    if empty {
        l.push(93);
        proof {
            assert(l@ =~= old(l)@ + kw_shapes_empty());
        }
    } else {
        proof {
            assert(l@ =~= old(l)@ + kw_shapes_open());
        }
    }
}

/// Append `"points": [` (or `"points": [],`).
fn push_kw_points(l: &mut Vec<u8>, empty: bool)
    ensures
        final(l)@ == old(l)@ + (if empty {
            kw_points_empty()
        } else {
            kw_points_open()
        }),
{
    l.push(34);
    l.push(112);
    l.push(111);
    l.push(105);
    l.push(110);
    l.push(116);
    l.push(115);
    l.push(34);
    l.push(58);
    l.push(32);
    l.push(91);
    if empty {
        l.push(93);
        l.push(44);
        proof {
            assert(l@ =~= old(l)@ + kw_points_empty());
        }
    } else {
        proof {
            assert(l@ =~= old(l)@ + kw_points_open());
        }
    }
}

/// Append `"tris": [` (or `"tris": []`).
fn push_kw_tris(l: &mut Vec<u8>, empty: bool)
    ensures
        final(l)@ == old(l)@ + (if empty {
            kw_tris_empty()
        } else {
            kw_tris_open()
        }),
{
    l.push(34);
    l.push(116);
    l.push(114);
    l.push(105);
    l.push(115);
    l.push(34);
    l.push(58);
    l.push(32);
    l.push(91);
    if empty {
        l.push(93);
        proof {
            assert(l@ =~= old(l)@ + kw_tris_empty());
        }
    } else {
        proof {
            assert(l@ =~= old(l)@ + kw_tris_open());
        }
    }
}

/// Append one coordinate line body: `"<key>": <number>` plus an optional
/// comma.
fn push_coord(l: &mut Vec<u8>, key: u8, bits: u32, comma: bool)
    requires
        key == 120 || key == 121 || key == 122,
    ensures
        final(l)@ == old(l)@ + coord_body(key, bits, comma),
        nl_free(json_number_text(bits)),
{
    l.push(34);
    l.push(key);
    l.push(34);
    l.push(58);
    l.push(32);
    let tx = fmt_real_json(bits);
    push_bytes(l, &tx);
    if comma {
        l.push(44);
        proof {
            assert(l@ =~= old(l)@ + coord_body(key, bits, comma));
        }
    } else {
        proof {
            assert(l@ =~= old(l)@ + coord_body(key, bits, comma));
        }
    }
}

/// Emit every hull into one pretty-printed JSON document with a `shapes`
/// list, each shape holding its `points` (each an x/y/z record) and its
/// `tris` (each a three-element array, zero-based).  The digit lines of the
/// emitted bytes hold exactly the triangle indices, in order: reading them
/// back recovers the triangles with no offset.
#[verifier::rlimit(100)]
pub fn emit_json(shapes: &Vec<Hull>) -> (out: Vec<u8>)
    ensures
        out@ == json_doc(shapes@),
        json_tri_values(out@) == shapes_tri_vals(shapes@),
{
    let ghost gss = shapes@;
    let mut lines: Vec<Vec<u8>> = Vec::new();
    let mut lo: Vec<u8> = Vec::new();
    lo.push(123);
    lines.push(lo);
    let ghost l_open = seq![jl(0, seq![123u8])];
    proof {
        assert(jl(0, seq![123u8]) =~= seq![123u8]);
        assert(line_views(lines@) =~~= l_open);
    }
    if shapes.len() == 0 {
        let mut l2 = open_line(2);
        push_kw_shapes(&mut l2, true);
        lines.push(l2);
        proof {
            assert(line_views(lines@) =~~= l_open + seq![jl(2, kw_shapes_empty())]);
        }
    } else {
        let mut l2 = open_line(2);
        push_kw_shapes(&mut l2, false);
        lines.push(l2);
        let ghost pre = l_open + seq![jl(2, kw_shapes_open())];
        proof {
            assert(line_views(lines@) =~~= pre);
            assert(shape_list_lines(gss.take(0), true) == Seq::<Seq<u8>>::empty());
            assert(line_views(lines@) =~~= pre + shape_list_lines(gss.take(0), true));
        }
        let mut k: usize = 0;
        while k < shapes.len()
            invariant
                k <= gss.len(),
                shapes@ == gss,
                pre == seq![jl(0, seq![123u8]), jl(2, kw_shapes_open())],
                line_views(lines@) == pre + shape_list_lines(gss.take(k as int), true),
                forall|k2: int| 0 <= k2 < k ==> coords_nl_free((#[trigger] gss[k2]).verts@),
            decreases gss.len() - k,
        {
            let ghost lv0 = line_views(lines@);
            let sh = &shapes[k];
            let first = k == 0;
            let mut la = open_line(4);
            if !first {
                la.push(44);
                la.push(32);
            }
            la.push(123);
            lines.push(la);
            proof {
                assert(la@ =~= jl(4, entry_brace(first)));
                assert(line_views(lines@) =~~= lv0 + seq![jl(4, entry_brace(first))]);
            }
            let ghost lv_a = line_views(lines@);
            if sh.verts.len() == 0 {
                let mut lp = open_line(6);
                push_kw_points(&mut lp, true);
                lines.push(lp);
                proof {
                    assert(line_views(lines@) =~~= lv_a + seq![jl(6, kw_points_empty())]);
                }
            } else {
                let mut lp = open_line(6);
                push_kw_points(&mut lp, false);
                lines.push(lp);
                let ghost lv_p = lv_a + seq![jl(6, kw_points_open())];
                proof {
                    assert(line_views(lines@) =~~= lv_p);
                    assert(point_list_lines(sh.verts@.take(0), true) == Seq::<Seq<u8>>::empty());
                    assert(line_views(lines@) =~~= lv_p + point_list_lines(
                        sh.verts@.take(0),
                        true,
                    ));
                }
                let mut vi: usize = 0;
                while vi < sh.verts.len()
                    invariant
                        vi <= sh.verts@.len(),
                        lv_p == lv_a + seq![jl(6, kw_points_open())],
                        line_views(lines@) == lv_p + point_list_lines(
                            sh.verts@.take(vi as int),
                            true,
                        ),
                        forall|n: int|
                            0 <= n < vi ==> nl_free(json_number_text(
                                (#[trigger] sh.verts@[n]).x,
                            )) && nl_free(json_number_text(sh.verts@[n].y)) && nl_free(
                                json_number_text(sh.verts@[n].z),
                            ),
                    decreases sh.verts@.len() - vi,
                {
                    let ghost lv_e = line_views(lines@);
                    let v = sh.verts[vi];
                    let mut le = open_line(8);
                    if vi != 0 {
                        le.push(44);
                        le.push(32);
                    }
                    le.push(123);
                    lines.push(le);
                    let mut lx = open_line(10);
                    push_coord(&mut lx, 120, v.x, true);
                    lines.push(lx);
                    let mut ly = open_line(10);
                    push_coord(&mut ly, 121, v.y, true);
                    lines.push(ly);
                    let mut lz = open_line(10);
                    push_coord(&mut lz, 122, v.z, false);
                    lines.push(lz);
                    let mut lc = open_line(8);
                    lc.push(125);
                    lines.push(lc);
                    proof {
                        assert(le@ =~= jl(8, entry_brace(vi == 0)));
                        assert(lx@ =~= jl(10, coord_body(120, v.x, true)));
                        assert(ly@ =~= jl(10, coord_body(121, v.y, true)));
                        assert(lz@ =~= jl(10, coord_body(122, v.z, false)));
                        assert(lc@ =~= jl(8, seq![125u8]));
                        assert(line_views(lines@) =~~= lv_e + point_entry_lines(v, vi == 0));
                        lemma_point_list_snoc(sh.verts@.take(vi as int), v, true);
                        assert(sh.verts@.take(vi + 1) =~= sh.verts@.take(vi as int).push(v));
                        assert(line_views(lines@) =~~= lv_p + point_list_lines(
                            sh.verts@.take(vi + 1),
                            true,
                        ));
                    }
                    vi = vi + 1;
                }
                let mut lq = open_line(6);
                lq.push(93);
                lq.push(44);
                lines.push(lq);
                proof {
                    assert(sh.verts@.take(sh.verts@.len() as int) =~= sh.verts@);
                    assert(point_list_lines(sh.verts@.take(sh.verts@.len() as int), true)
                        == point_list_lines(sh.verts@, true));
                    assert(lq@ =~= jl(6, seq![93u8, 44u8]));
                    assert(line_views(lines@) =~~= (lv_p + point_list_lines(sh.verts@, true)).push(
                        jl(6, seq![93u8, 44u8]),
                    ));
                    assert(line_views(lines@) =~~= lv_a + (seq![jl(6, kw_points_open())]
                        + point_list_lines(sh.verts@, true) + seq![jl(6, seq![93u8, 44u8])]));
                }
            }
            let ghost lv_b = line_views(lines@);
            proof {
                assert(lv_b =~~= lv_a + (if sh.verts@.len() == 0 {
                    seq![jl(6, kw_points_empty())]
                } else {
                    seq![jl(6, kw_points_open())] + point_list_lines(sh.verts@, true) + seq![
                        jl(6, seq![93u8, 44u8]),
                    ]
                }));
            }
            if sh.tris.len() == 0 {
                let mut lt = open_line(6);
                push_kw_tris(&mut lt, true);
                lines.push(lt);
                proof {
                    assert(line_views(lines@) =~~= lv_b + seq![jl(6, kw_tris_empty())]);
                }
            } else {
                let mut lt = open_line(6);
                push_kw_tris(&mut lt, false);
                lines.push(lt);
                let ghost lv_t = lv_b + seq![jl(6, kw_tris_open())];
                proof {
                    assert(line_views(lines@) =~~= lv_t);
                    assert(tri_list_lines(sh.tris@.take(0), true) == Seq::<Seq<u8>>::empty());
                    assert(line_views(lines@) =~~= lv_t + tri_list_lines(sh.tris@.take(0), true));
                }
                let mut ti: usize = 0;
                while ti < sh.tris.len()
                    invariant
                        ti <= sh.tris@.len(),
                        lv_t == lv_b + seq![jl(6, kw_tris_open())],
                        line_views(lines@) == lv_t + tri_list_lines(
                            sh.tris@.take(ti as int),
                            true,
                        ),
                    decreases sh.tris@.len() - ti,
                {
                    let ghost lv_e = line_views(lines@);
                    let t = sh.tris[ti];
                    let mut le = open_line(8);
                    if ti != 0 {
                        le.push(44);
                        le.push(32);
                    }
                    le.push(91);
                    lines.push(le);
                    let mut l0 = open_line(10);
                    let d0 = fmt_u64(t[0] as u64);
                    push_bytes(&mut l0, &d0);
                    l0.push(44);
                    lines.push(l0);
                    let mut l1 = open_line(10);
                    let d1 = fmt_u64(t[1] as u64);
                    push_bytes(&mut l1, &d1);
                    l1.push(44);
                    lines.push(l1);
                    let mut l2i = open_line(10);
                    let d2 = fmt_u64(t[2] as u64);
                    push_bytes(&mut l2i, &d2);
                    lines.push(l2i);
                    let mut lc = open_line(8);
                    lc.push(93);
                    lines.push(lc);
                    proof {
                        assert(d0@ == dec_spec(t[0] as nat));
                        assert(d1@ == dec_spec(t[1] as nat));
                        assert(d2@ == dec_spec(t[2] as nat));
                        assert(le@ =~= jl(8, entry_bracket(ti == 0)));
                        assert(l0@ =~= jl(10, idx_body(t[0], true)));
                        assert(l1@ =~= jl(10, idx_body(t[1], true)));
                        assert(l2i@ =~= jl(10, idx_body(t[2], false)));
                        assert(lc@ =~= jl(8, seq![93u8]));
                        assert(line_views(lines@) =~~= lv_e + tri_entry_lines(t, ti == 0));
                        lemma_tri_list_snoc(sh.tris@.take(ti as int), t, true);
                        assert(sh.tris@.take(ti + 1) =~= sh.tris@.take(ti as int).push(t));
                        assert(line_views(lines@) =~~= lv_t + tri_list_lines(
                            sh.tris@.take(ti + 1),
                            true,
                        ));
                    }
                    ti = ti + 1;
                }
                let mut lq = open_line(6);
                lq.push(93);
                lines.push(lq);
                proof {
                    assert(sh.tris@.take(sh.tris@.len() as int) =~= sh.tris@);
                    assert(tri_list_lines(sh.tris@.take(sh.tris@.len() as int), true)
                        == tri_list_lines(sh.tris@, true));
                    assert(lq@ =~= jl(6, seq![93u8]));
                    assert(line_views(lines@) =~~= (lv_t + tri_list_lines(sh.tris@, true)).push(
                        jl(6, seq![93u8]),
                    ));
                    assert(line_views(lines@) =~~= lv_b + (seq![jl(6, kw_tris_open())]
                        + tri_list_lines(sh.tris@, true) + seq![jl(6, seq![93u8])]));
                }
            }
            let mut lz = open_line(4);
            lz.push(125);
            lines.push(lz);
            proof {
                assert(lz@ =~= jl(4, seq![125u8]));
                let seg_p = if sh.verts@.len() == 0 {
                    seq![jl(6, kw_points_empty())]
                } else {
                    seq![jl(6, kw_points_open())] + point_list_lines(sh.verts@, true) + seq![
                        jl(6, seq![93u8, 44u8]),
                    ]
                };
                let seg_t = if sh.tris@.len() == 0 {
                    seq![jl(6, kw_tris_empty())]
                } else {
                    seq![jl(6, kw_tris_open())] + tri_list_lines(sh.tris@, true) + seq![
                        jl(6, seq![93u8]),
                    ]
                };
                assert(lv_b =~~= lv_a + seg_p);
                assert(line_views(lines@) =~~= (lv_b + seg_t).push(jl(4, seq![125u8])));
                assert(lv_a =~~= lv0 + seq![jl(4, entry_brace(first))]);
                assert(shape_entry_lines(sh.verts@, sh.tris@, first) == seq![
                    jl(4, entry_brace(first)),
                ] + seg_p + seg_t + seq![jl(4, seq![125u8])]);
                assert(line_views(lines@) =~~= lv0 + shape_entry_lines(
                    sh.verts@,
                    sh.tris@,
                    first,
                ));
                lemma_shape_list_snoc(gss.take(k as int), gss[k as int], true);
                assert(gss.take(k + 1) =~= gss.take(k as int).push(gss[k as int]));
                assert(line_views(lines@) =~~= pre + shape_list_lines(gss.take(k + 1), true));
            }
            k = k + 1;
        }
        let mut lq = open_line(2);
        lq.push(93);
        lines.push(lq);
        proof {
            assert(gss.take(gss.len() as int) =~= gss);
            assert(lq@ =~= jl(2, seq![93u8]));
            assert(line_views(lines@) =~~= pre + shape_list_lines(gss, true) + seq![
                jl(2, seq![93u8]),
            ]);
        }
    }
    let mut lz: Vec<u8> = Vec::new();
    lz.push(125);
    lines.push(lz);
    proof {
        assert(jl(0, seq![125u8]) =~= seq![125u8]);
        assert(lz@ =~= jl(0, seq![125u8]));
        if gss.len() == 0 {
            assert(line_views(lines@) =~~= seq![jl(0, seq![123u8])] + seq![
                jl(2, kw_shapes_empty()),
            ] + seq![jl(0, seq![125u8])]);
        } else {
            let pre2 = seq![jl(0, seq![123u8]), jl(2, kw_shapes_open())];
            assert(line_views(lines@) =~~= (pre2 + shape_list_lines(gss, true) + seq![
                jl(2, seq![93u8]),
            ]).push(jl(0, seq![125u8])));
            assert(line_views(lines@) =~~= seq![jl(0, seq![123u8])] + (seq![
                jl(2, kw_shapes_open()),
            ] + shape_list_lines(gss, true) + seq![jl(2, seq![93u8])]) + seq![jl(0, seq![125u8])]);
        }
        assert(line_views(lines@) =~~= json_lines(gss));
        assert(forall|k2: int| 0 <= k2 < gss.len() ==> coords_nl_free((#[trigger] gss[k2]).verts@));
    }
    let ghost gl = line_views(lines@);
    let mut out: Vec<u8> = Vec::new();
    let mut i: usize = 0;
    while i < lines.len()
        invariant
            i <= lines@.len(),
            line_views(lines@) == gl,
            gl.len() == lines@.len(),
            out@ == join_lines(gl.take(i as int)),
        decreases lines@.len() - i,
    {
        push_bytes(&mut out, &lines[i]);
        out.push(NL);
        proof {
            assert(gl[i as int] == lines@[i as int]@);
            assert(gl.take(i + 1) =~= gl.take(i as int).push(gl[i as int]));
            lemma_join_snoc(gl.take(i as int), gl[i as int]);
            assert(join_lines(gl.take(0)) == Seq::<u8>::empty());
        }
        i = i + 1;
    }
    proof {
        assert(gl.take(gl.len() as int) =~= gl);
        lemma_json_round_trip(gss);
    }
    out
}


/// Emission is a function of the hulls' geometry alone: two runs whose
/// decomposition returned the same vertices and triangles — as the
/// deterministic decomposition service does for equal inputs — produce
/// byte-identical JSON documents.
pub proof fn lemma_json_deterministic(a: Seq<Hull>, b: Seq<Hull>)
    requires
        a.len() == b.len(),
        forall|k: int|
            0 <= k < a.len() ==> (#[trigger] a[k]).verts@ == b[k].verts@ && a[k].tris@
                == b[k].tris@,
    ensures
        json_doc(a) == json_doc(b),
{
    lemma_shape_list_eq(a, b, true);
    if a.len() == 0 {
        assert(json_lines(a) == json_lines(b));
    } else {
        assert(json_lines(a) == json_lines(b));
    }
}

proof fn lemma_shape_list_eq(a: Seq<Hull>, b: Seq<Hull>, f: bool)
    requires
        a.len() == b.len(),
        forall|k: int|
            0 <= k < a.len() ==> (#[trigger] a[k]).verts@ == b[k].verts@ && a[k].tris@
                == b[k].tris@,
    ensures
        shape_list_lines(a, f) == shape_list_lines(b, f),
    decreases a.len(),
{
    if a.len() > 0 {
        assert(a.first() == a[0] && b.first() == b[0]);
        assert(forall|k: int|
            0 <= k < a.drop_first().len() ==> (#[trigger] a.drop_first()[k]) == a[k + 1]
                && b.drop_first()[k] == b[k + 1]);
        lemma_shape_list_eq(a.drop_first(), b.drop_first(), false);
        assert(shape_entry_lines(a.first().verts@, a.first().tris@, f) == shape_entry_lines(
            b.first().verts@,
            b.first().tris@,
            f,
        ));
    }
}


/// The shape views of a hull list: each hull's vertices and triangles.
pub open spec fn hull_pairs(ss: Seq<Hull>) -> Seq<(Seq<Vertex>, Seq<Tri>)> {
    ss.map_values(|h: Hull| (h.verts@, h.tris@))
}

/// The JSON document of any hull list with these shape views — well
/// defined because emission reads nothing but the views
/// (`lemma_json_doc_of`, resting on `lemma_json_deterministic`).
pub open spec fn json_doc_of(hv: Seq<(Seq<Vertex>, Seq<Tri>)>) -> Seq<u8> {
    json_doc(choose|ss: Seq<Hull>| hull_pairs(ss) == hv)
}

/// A hull list's document is the document of its shape views.
pub proof fn lemma_json_doc_of(ss: Seq<Hull>)
    ensures
        json_doc_of(hull_pairs(ss)) == json_doc(ss),
{
    assert(hull_pairs(ss) == hull_pairs(ss));
    let picked = choose|ss2: Seq<Hull>| hull_pairs(ss2) == hull_pairs(ss);
    assert(hull_pairs(picked) == hull_pairs(ss));
    assert(picked.len() == ss.len());
    assert forall|k: int|
        0 <= k < picked.len() implies (#[trigger] picked[k]).verts@ == ss[k].verts@
        && picked[k].tris@ == ss[k].tris@ by {
        assert(hull_pairs(picked)[k] == hull_pairs(ss)[k]);
        assert(hull_pairs(picked)[k] == (picked[k].verts@, picked[k].tris@));
        assert(hull_pairs(ss)[k] == (ss[k].verts@, ss[k].tris@));
    }
    lemma_json_deterministic(picked, ss);
}

} // verus!
