//! An `n`-sided cone: a tip above a ring of `n` rim points, closed by a
//! base fan around a base-centre vertex.

use vstd::prelude::*;
use crate::topology::{
    tri, indices_below, non_degenerate, distinct3, has_edge, buffer_has_edge, edges_paired_except,
    push_triangle,
};
use crate::wrap::lemma_wrap_next;

verus! {

/// What a vertex of the cone stands for.
#[derive(Clone, Copy, Debug, PartialEq, Eq, Structural)]
pub enum ConeVertex {
    /// The apex, shared by every side face.
    Tip,
    /// The centre of the base, shared by every base face.
    BaseCenter,
    /// The `i`-th of the `n` points spaced evenly round the base circle.
    Rim(u32),
}

/// Number of vertices of an `n`-sided cone: tip, base centre and `n` rim points.
pub open spec fn cone_vertex_count(n: int) -> int {
    n + 2
}

/// The `k`-th vertex of the cone: tip, then base centre, then the rim in order.
pub open spec fn cone_vertex(k: int) -> ConeVertex {
    if k == 0 {
        ConeVertex::Tip
    } else if k == 1 {
        ConeVertex::BaseCenter
    } else {
        ConeVertex::Rim((k - 2) as u32)
    }
}

/// Vertex number of rim point `i`.
pub open spec fn cone_rim(i: int) -> int {
    2 + i
}

/// Triangle `t` of the cone. Rim step `i` gives two faces: the side face
/// `(tip, rim i, rim i+1)` at `t = 2i` and the base face
/// `(base centre, rim i+1, rim i)`, wound the other way, at `t = 2i + 1`.
/// The rim wraps round: after the last rim point comes the first.
pub open spec fn cone_triangle(n: int, t: int) -> (int, int, int) {
    let i = t / 2;
    let here = cone_rim(i);
    let next = cone_rim((i + 1) % n);
    if t % 2 == 0 {
        (0, here, next)
    } else {
        (1, next, here)
    }
}

/// Builds the vertex layout and index buffer of an `n`-sided cone.
pub fn make_cone(n: u32) -> (res: (Vec<ConeVertex>, Vec<u16>))
    requires
        cone_vertex_count(n as int) <= 65536,
    ensures
        res.0@.len() == cone_vertex_count(n as int),
        forall|k: int| 0 <= k < res.0@.len() ==> #[trigger] res.0@[k] == cone_vertex(k),
        res.0@.no_duplicates(),
        res.1@.len() == 6 * n,
        forall|t: int| 0 <= t < 2 * n ==> #[trigger] tri(res.1@, t) == cone_triangle(n as int, t),
        indices_below(res.1@, cone_vertex_count(n as int)),
        forall|t: int|
            #![trigger tri(res.1@, t)]
            0 <= t < 2 * n ==> {
                let i = t / 2;
                let next = if i + 1 < n { i + 1 } else { 0 };
                let tr = tri(res.1@, t);
                if t % 2 == 0 {
                    &&& res.0@[tr.0] == ConeVertex::Tip
                    &&& res.0@[tr.1] == ConeVertex::Rim(i as u32)
                    &&& res.0@[tr.2] == ConeVertex::Rim(next as u32)
                } else {
                    &&& res.0@[tr.0] == ConeVertex::BaseCenter
                    &&& res.0@[tr.1] == ConeVertex::Rim(next as u32)
                    &&& res.0@[tr.2] == ConeVertex::Rim(i as u32)
                }
            },
        n >= 2 ==> non_degenerate(res.1@),
        edges_paired_except(res.1@, |u: int, v: int| false),
{
    let mut verts: Vec<ConeVertex> = Vec::new();
    let mut idx: Vec<u16> = Vec::new();

    verts.push(ConeVertex::Tip);
    verts.push(ConeVertex::BaseCenter);

    let mut i: u32 = 0;
    while i < n
        invariant
            i <= n,
            verts@.len() == i + 2,
            forall|k: int| 0 <= k < verts@.len() ==> #[trigger] verts@[k] == cone_vertex(k),
        decreases n - i,
    {
        verts.push(ConeVertex::Rim(i));
        i = i + 1;
    }

    let mut i: u32 = 0;
    while i < n
        invariant
            i <= n,
            n + 2 <= 65536,
            idx@.len() == 6 * i,
            forall|t: int| 0 <= t < 2 * i ==> #[trigger] tri(idx@, t) == cone_triangle(n as int, t),
            indices_below(idx@, n + 2),
        decreases n - i,
    {
        let a: u32 = 2 + i;
        let b: u32 = 2 + (i + 1) % n;
        let ghost before = idx@;
        push_triangle(&mut idx, 0, a as u16, b as u16);
        let ghost mid = idx@;
        push_triangle(&mut idx, 1, b as u16, a as u16);
        assert forall|t: int| 0 <= t < 2 * (i + 1) implies #[trigger] tri(idx@, t) == cone_triangle(n as int, t) by {
            if t < 2 * i {
                assert(tri(mid, t) == tri(before, t));
            } else if t == 2 * i {
                assert(tri(idx@, t) == tri(mid, t));
            }
        }
        i = i + 1;
    }
    proof {
        assert forall|t: int| #![trigger tri(idx@, t)] 0 <= t < 2 * n implies {
            let i = t / 2;
            let next = if i + 1 < n { i + 1 } else { 0 };
            let tr = tri(idx@, t);
            if t % 2 == 0 {
                &&& verts@[tr.0] == ConeVertex::Tip
                &&& verts@[tr.1] == ConeVertex::Rim(i as u32)
                &&& verts@[tr.2] == ConeVertex::Rim(next as u32)
            } else {
                &&& verts@[tr.0] == ConeVertex::BaseCenter
                &&& verts@[tr.1] == ConeVertex::Rim(next as u32)
                &&& verts@[tr.2] == ConeVertex::Rim(i as u32)
            }
        } by {
            let i = t / 2;
            lemma_wrap_next(i, n as int);
            let tr = tri(idx@, t);
            assert(tr == cone_triangle(n as int, t));
            assert(verts@[tr.0] == cone_vertex(tr.0));
            assert(verts@[tr.1] == cone_vertex(tr.1));
            assert(verts@[tr.2] == cone_vertex(tr.2));
        }
        lemma_cone_faces(n as int, idx@);
        assert forall|p: int, q: int| 0 <= p < verts@.len() && 0 <= q < verts@.len() && p != q implies verts@[p] != verts@[q] by {
            assert(verts@[p] == cone_vertex(p));
            assert(verts@[q] == cone_vertex(q));
        }
    }
    (verts, idx)
}

/// The side and base faces of a cone built round `n` rim points close up:
/// each face edge is walked the other way by a neighbouring face, and from
/// two rim points on no face repeats a vertex.
proof fn lemma_cone_faces(n: int, idx: Seq<u16>)
    requires
        n >= 0,
        idx.len() == 6 * n,
        forall|t: int| 0 <= t < 2 * n ==> #[trigger] tri(idx, t) == cone_triangle(n, t),
    ensures
        n >= 2 ==> non_degenerate(idx),
        edges_paired_except(idx, |u: int, v: int| false),
{
    assert forall|t: int| 0 <= t < idx.len() / 3 && n >= 2 implies distinct3(#[trigger] tri(idx, t)) by {
        let i = t / 2;
        lemma_wrap_next(i, n);
        assert(tri(idx, t) == cone_triangle(n, t));
    }
    assert forall|t: int, u: int, v: int|
        0 <= t < idx.len() / 3 && #[trigger] has_edge(tri(idx, t), u, v) && !((|u: int, v: int| false)(u, v))
        implies buffer_has_edge(idx, v, u) by {
        let i = t / 2;
        let prev = if i == 0 { n - 1 } else { i - 1 };
        let next = (i + 1) % n;
        lemma_wrap_next(i, n);
        lemma_wrap_next(prev, n);
        lemma_wrap_next(next, n);
        assert(tri(idx, t) == cone_triangle(n, t));
        let side_prev = 2 * prev;
        let side_here = 2 * i;
        let side_next = 2 * next;
        let base_prev = 2 * prev + 1;
        let base_here = 2 * i + 1;
        let base_next = 2 * next + 1;
        assert(tri(idx, side_prev) == cone_triangle(n, side_prev));
        assert(tri(idx, side_here) == cone_triangle(n, side_here));
        assert(tri(idx, side_next) == cone_triangle(n, side_next));
        assert(tri(idx, base_prev) == cone_triangle(n, base_prev));
        assert(tri(idx, base_here) == cone_triangle(n, base_here));
        assert(tri(idx, base_next) == cone_triangle(n, base_next));
        let tr = tri(idx, t);
        if t % 2 == 0 {
            if tr.0 == u && tr.1 == v {
                assert(has_edge(tri(idx, side_prev), v, u));
            } else if tr.1 == u && tr.2 == v {
                assert(has_edge(tri(idx, base_here), v, u));
            } else {
                assert(has_edge(tri(idx, side_next), v, u));
            }
        } else {
            if tr.0 == u && tr.1 == v {
                assert(has_edge(tri(idx, base_next), v, u));
            } else if tr.1 == u && tr.2 == v {
                assert(has_edge(tri(idx, side_here), v, u));
            } else {
                assert(has_edge(tri(idx, base_prev), v, u));
            }
        }
    }
}

/// The base face of each rim step is its side face with the tip swapped
/// for the base centre and the winding reversed.
pub proof fn lemma_cone_base_mirrors_side(n: int, i: int)
    requires
        n > 0,
        0 <= i < n,
    ensures
        cone_triangle(n, 2 * i + 1) == (1int, cone_triangle(n, 2 * i).2, cone_triangle(n, 2 * i).1),
        cone_triangle(n, 2 * i).0 == 0,
{
}

} // verus!
