//! A vase: a surface of revolution. A profile curve is turned round the
//! vertical axis; `stacks + 1` rings of `slices` vertices each, from the
//! bottom ring to the top one, are joined by a band of quads.

use vstd::prelude::*;
use vstd::arithmetic::div_mod::lemma_mod_pos_bound;
use crate::wrap::lemma_wrap_next;
use crate::topology::{tri, indices_below, non_degenerate, distinct3, has_edge, buffer_has_edge, edges_paired_except};
use crate::band::{band_vertex, band_tri, band_quad, quad, is_band, push_band, lemma_cell_order, lemma_band_cell, lemma_band_quad_distinct, lemma_band_edge, lemma_band_point};

verus! {

/// What a vertex of the vase stands for: the point at angle step `slice`
/// (of `slices` round the axis) on ring `stack` (of `stacks + 1` from the
/// bottom up).
#[derive(Clone, Copy, Debug, PartialEq, Eq, Structural)]
pub struct VaseVertex {
    pub stack: u32,
    pub slice: u32,
}

/// Number of vertices of a vase with `stacks` quad rows of `slices` quads.
pub open spec fn vase_vertex_count(stacks: int, slices: int) -> int {
    (stacks + 1) * slices
}

/// The two rings that bound the open vase: the bottom ring and the top ring.
pub open spec fn vase_rim_edge(stacks: int, slices: int, u: int, v: int) -> bool {
    (u < slices && v < slices) || (u >= stacks * slices && v >= stacks * slices)
}

/// Builds the vertex layout and index buffer of a vase with `stacks` rows
/// of `slices` quads. Vertices come ring by ring from the bottom, each ring
/// round the axis in order.
pub fn make_vase(stacks: u32, slices: u32) -> (res: (Vec<VaseVertex>, Vec<u16>))
    requires
        vase_vertex_count(stacks as int, slices as int) <= 65536,
    ensures
        res.0@.len() == vase_vertex_count(stacks as int, slices as int),
        forall|st: int, sl: int|
            0 <= st <= stacks && 0 <= sl < slices ==> #[trigger] res.0@[band_vertex(0, slices as int, st, sl)]
                == (VaseVertex { stack: st as u32, slice: sl as u32 }),
        res.0@.no_duplicates(),
        res.1@.len() == 6 * (stacks * slices),
        is_band(res.1@, 0, 0, stacks as int, slices as int),
        indices_below(res.1@, vase_vertex_count(stacks as int, slices as int)),
        forall|st: int, sl: int|
            #![trigger quad(res.1@, band_tri(0, slices as int, st, sl))]
            0 <= st < stacks && 0 <= sl < slices ==> {
                let q = quad(res.1@, band_tri(0, slices as int, st, sl));
                let next = if sl + 1 < slices { sl + 1 } else { 0 };
                &&& q.1.0 == q.0.2
                &&& q.1.1 == q.0.1
                &&& q.0.1 == q.0.0 + slices
                &&& q.1.2 == q.0.2 + slices
                &&& res.0@[q.0.0] == (VaseVertex { stack: st as u32, slice: sl as u32 })
                &&& res.0@[q.0.2] == (VaseVertex { stack: st as u32, slice: next as u32 })
                &&& res.0@[q.0.1] == (VaseVertex { stack: (st + 1) as u32, slice: sl as u32 })
                &&& res.0@[q.1.2] == (VaseVertex { stack: (st + 1) as u32, slice: next as u32 })
            },
        slices >= 2 ==> non_degenerate(res.1@),
        edges_paired_except(res.1@, |u: int, v: int| vase_rim_edge(stacks as int, slices as int, u, v)),
{
    let mut verts: Vec<VaseVertex> = Vec::new();
    let mut st: u64 = 0;
    while st <= stacks as u64
        invariant
            st <= stacks + 1,
            verts@.len() == st * slices,
            forall|s: int, l: int|
                0 <= s < st && 0 <= l < slices ==> #[trigger] verts@[band_vertex(0, slices as int, s, l)]
                    == (VaseVertex { stack: s as u32, slice: l as u32 }),
        decreases stacks + 1 - st,
    {
        let mut sl: u32 = 0;
        while sl < slices
            invariant
                st <= stacks,
                sl <= slices,
                verts@.len() == st * slices + sl,
                forall|s: int, l: int|
                    0 <= s <= st && 0 <= l < slices && (s < st || l < sl) ==> #[trigger] verts@[band_vertex(
                        0,
                        slices as int,
                        s,
                        l,
                    )] == (VaseVertex { stack: s as u32, slice: l as u32 }),
            decreases slices - sl,
        {
            let ghost before = verts@;
            verts.push(VaseVertex { stack: st as u32, slice: sl });
            assert forall|s: int, l: int|
                0 <= s <= st && 0 <= l < slices && (s < st || l < sl + 1) implies #[trigger] verts@[band_vertex(
                    0,
                    slices as int,
                    s,
                    l,
                )] == (VaseVertex { stack: s as u32, slice: l as u32 }) by {
                if s < st || l < sl {
                    lemma_cell_order(s, l, st as int, sl as int, slices as int);
                    assert(verts@[band_vertex(0, slices as int, s, l)] == before[band_vertex(0, slices as int, s, l)]);
                }
            }
            sl = sl + 1;
        }
        proof {
            assert(st * slices + slices == (st + 1) * slices) by (nonlinear_arith);
        }
        st = st + 1;
    }

    assert forall|p: int, q: int| 0 <= p < verts@.len() && 0 <= q < verts@.len() && p != q implies verts@[p] != verts@[q] by {
        let pp = lemma_band_point(0, slices as int, stacks + 1, p);
        let qq = lemma_band_point(0, slices as int, stacks + 1, q);
        assert(verts@[band_vertex(0, slices as int, pp.0, pp.1)] == (VaseVertex { stack: pp.0 as u32, slice: pp.1 as u32 }));
        assert(verts@[band_vertex(0, slices as int, qq.0, qq.1)] == (VaseVertex { stack: qq.0 as u32, slice: qq.1 as u32 }));
    }

    let mut idx: Vec<u16> = Vec::new();
    push_band(&mut idx, 0, stacks, slices);
    proof {
        assert forall|st: int, sl: int|
            #![trigger quad(idx@, band_tri(0, slices as int, st, sl))]
            0 <= st < stacks && 0 <= sl < slices implies {
                let q = quad(idx@, band_tri(0, slices as int, st, sl));
                let next = if sl + 1 < slices { sl + 1 } else { 0 };
                &&& q.1.0 == q.0.2
                &&& q.1.1 == q.0.1
                &&& q.0.1 == q.0.0 + slices
                &&& q.1.2 == q.0.2 + slices
                &&& verts@[q.0.0] == (VaseVertex { stack: st as u32, slice: sl as u32 })
                &&& verts@[q.0.2] == (VaseVertex { stack: st as u32, slice: next as u32 })
                &&& verts@[q.0.1] == (VaseVertex { stack: (st + 1) as u32, slice: sl as u32 })
                &&& verts@[q.1.2] == (VaseVertex { stack: (st + 1) as u32, slice: next as u32 })
            } by {
            let c = slices as int;
            assert(quad(idx@, band_tri(0, c, st, sl)) == band_quad(0, c, st, sl));
            lemma_wrap_next(sl, c);
            let next = (sl + 1) % c;
            assert((st + 1) * c == st * c + c) by (nonlinear_arith);
            assert(verts@[band_vertex(0, c, st, sl)] == (VaseVertex { stack: st as u32, slice: sl as u32 }));
            assert(verts@[band_vertex(0, c, st, next)] == (VaseVertex { stack: st as u32, slice: next as u32 }));
            assert(verts@[band_vertex(0, c, st + 1, sl)] == (VaseVertex { stack: (st + 1) as u32, slice: sl as u32 }));
            assert(verts@[band_vertex(0, c, st + 1, next)] == (VaseVertex { stack: (st + 1) as u32, slice: next as u32 }));
        }
        lemma_vase_faces(stacks as int, slices as int, idx@);
    }
    (verts, idx)
}

/// From two slices on no vase triangle repeats a vertex; every edge of the
/// vase, except those along its bottom and top rings, is walked both ways.
proof fn lemma_vase_faces(stacks: int, slices: int, idx: Seq<u16>)
    requires
        stacks >= 0,
        slices >= 0,
        idx.len() == 6 * (stacks * slices),
        is_band(idx, 0, 0, stacks, slices),
    ensures
        slices >= 2 ==> non_degenerate(idx),
        edges_paired_except(idx, |u: int, v: int| vase_rim_edge(stacks, slices, u, v)),
{
    assert forall|t: int| 0 <= t < idx.len() / 3 && slices >= 2 implies distinct3(#[trigger] tri(idx, t)) by {
        let cell = lemma_band_cell(0, stacks, slices, t);
        assert(quad(idx, band_tri(0, slices, cell.0, cell.1)) == band_quad(0, slices, cell.0, cell.1));
        lemma_band_quad_distinct(0, slices, cell.0, cell.1);
    }
    assert forall|t: int, u: int, v: int|
        0 <= t < idx.len() / 3 && #[trigger] has_edge(tri(idx, t), u, v) && !((|u: int, v: int|
            vase_rim_edge(stacks, slices, u, v))(u, v)) implies buffer_has_edge(idx, v, u) by {
        lemma_band_edge(idx, 0, 0, stacks, slices, t, u, v);
        if 0 <= v < slices {
            lemma_mod_pos_bound(v + 1, slices);
        }
        if stacks * slices <= u && slices > 0 {
            lemma_mod_pos_bound(u - stacks * slices + 1, slices);
        }
    }
}

} // verus!
