//! A flat disc: a centre vertex and `rings` concentric rings of `sectors`
//! vertices each. The innermost ring is joined to the centre by a fan; each
//! further ring is joined to the one inside it by a band of quads.

use vstd::prelude::*;
use crate::topology::{
    tri, indices_below, non_degenerate, distinct3, has_edge, buffer_has_edge, edges_paired_except,
    push_triangle,
};
use crate::band::{
    band_vertex, band_tri, band_quad, quad, is_band, push_band, lemma_cell_order, lemma_band_cell,
    lemma_band_quad_distinct, lemma_band_edge, lemma_band_point,
};
use crate::wrap::lemma_wrap_next;

verus! {

/// What a vertex of the disc stands for.
#[derive(Clone, Copy, Debug, PartialEq, Eq, Structural)]
pub enum DiscVertex {
    /// The centre of the disc.
    Center,
    /// Sector `sector` (of `sectors` round the circle) of ring `ring`,
    /// counting rings from 1 at the innermost to `rings` at the rim.
    Ring { ring: u32, sector: u32 },
}

/// Number of vertices of a disc: the centre and `rings` rings of `sectors`.
pub open spec fn disc_vertex_count(rings: int, sectors: int) -> int {
    1 + rings * sectors
}

/// Number of quad rows that join the rings of the disc to each other.
pub open spec fn disc_band_rows(rings: int) -> int {
    if rings == 0 {
        0
    } else {
        rings - 1
    }
}

/// Length of the index buffer of a disc: nothing without rings; otherwise
/// the centre fan and the band between consecutive rings.
pub open spec fn disc_index_count(rings: int, sectors: int) -> int {
    if rings == 0 {
        0
    } else {
        3 * sectors + 6 * ((rings - 1) * sectors)
    }
}

/// Triangle `si` of the centre fan: the centre, sector `si` of the
/// innermost ring and the sector after it (wrapping round).
pub open spec fn disc_fan_triangle(sectors: int, si: int) -> (int, int, int) {
    (0, 1 + si, 1 + (si + 1) % sectors)
}

/// Both ends of the edge `u -> v` lie on the outermost ring.
pub open spec fn disc_rim_edge(rings: int, sectors: int, u: int, v: int) -> bool {
    u >= 1 + (rings - 1) * sectors && v >= 1 + (rings - 1) * sectors
}

/// Builds the vertex layout and index buffer of a disc of `rings` rings of
/// `sectors` vertices: the centre first, then the rings from the inside
/// out, each round the circle in order. The first `sectors` triangles form
/// the centre fan; the band between the rings follows. A disc without
/// rings is the centre alone, with no triangles.
pub fn make_disc(rings: u32, sectors: u32) -> (res: (Vec<DiscVertex>, Vec<u16>))
    requires
        disc_vertex_count(rings as int, sectors as int) <= 65536,
    ensures
        res.0@.len() == disc_vertex_count(rings as int, sectors as int),
        res.0@[0] == DiscVertex::Center,
        forall|r: int, si: int|
            0 <= r < rings && 0 <= si < sectors ==> #[trigger] res.0@[band_vertex(1, sectors as int, r, si)]
                == (DiscVertex::Ring { ring: (r + 1) as u32, sector: si as u32 }),
        res.0@.no_duplicates(),
        res.1@.len() == disc_index_count(rings as int, sectors as int),
        forall|si: int|
            rings >= 1 && 0 <= si < sectors ==> #[trigger] tri(res.1@, si) == disc_fan_triangle(
                sectors as int,
                si,
            ),
        is_band(res.1@, sectors as int, 1, disc_band_rows(rings as int), sectors as int),
        indices_below(res.1@, disc_vertex_count(rings as int, sectors as int)),
        forall|si: int|
            #![trigger tri(res.1@, si)]
            rings >= 1 && 0 <= si < sectors ==> {
                let tr = tri(res.1@, si);
                let next = if si + 1 < sectors { si + 1 } else { 0 };
                &&& res.0@[tr.0] == DiscVertex::Center
                &&& res.0@[tr.1] == (DiscVertex::Ring { ring: 1, sector: si as u32 })
                &&& res.0@[tr.2] == (DiscVertex::Ring { ring: 1, sector: next as u32 })
            },
        forall|r: int, si: int|
            #![trigger quad(res.1@, band_tri(sectors as int, sectors as int, r, si))]
            0 <= r < rings - 1 && 0 <= si < sectors ==> {
                let q = quad(res.1@, band_tri(sectors as int, sectors as int, r, si));
                let next = if si + 1 < sectors { si + 1 } else { 0 };
                &&& q.1.0 == q.0.2
                &&& q.1.1 == q.0.1
                &&& q.0.1 == q.0.0 + sectors
                &&& q.1.2 == q.0.2 + sectors
                &&& res.0@[q.0.0] == (DiscVertex::Ring { ring: (r + 1) as u32, sector: si as u32 })
                &&& res.0@[q.0.2] == (DiscVertex::Ring { ring: (r + 1) as u32, sector: next as u32 })
                &&& res.0@[q.0.1] == (DiscVertex::Ring { ring: (r + 2) as u32, sector: si as u32 })
                &&& res.0@[q.1.2] == (DiscVertex::Ring { ring: (r + 2) as u32, sector: next as u32 })
            },
        sectors >= 2 ==> non_degenerate(res.1@),
        edges_paired_except(res.1@, |u: int, v: int| disc_rim_edge(rings as int, sectors as int, u, v)),
{
    let mut verts: Vec<DiscVertex> = Vec::new();
    verts.push(DiscVertex::Center);
    let mut ri: u64 = 1;
    while ri <= rings as u64
        invariant
            1 <= ri <= rings + 1,
            verts@.len() == 1 + (ri - 1) * sectors,
            verts@[0] == DiscVertex::Center,
            forall|r: int, si: int|
                0 <= r < ri - 1 && 0 <= si < sectors ==> #[trigger] verts@[band_vertex(1, sectors as int, r, si)]
                    == (DiscVertex::Ring { ring: (r + 1) as u32, sector: si as u32 }),
        decreases rings + 1 - ri,
    {
        let mut si: u32 = 0;
        while si < sectors
            invariant
                1 <= ri <= rings,
                si <= sectors,
                verts@.len() == 1 + (ri - 1) * sectors + si,
                verts@[0] == DiscVertex::Center,
                forall|r: int, s: int|
                    0 <= r <= ri - 1 && 0 <= s < sectors && (r < ri - 1 || s < si) ==> #[trigger] verts@[band_vertex(
                        1,
                        sectors as int,
                        r,
                        s,
                    )] == (DiscVertex::Ring { ring: (r + 1) as u32, sector: s as u32 }),
            decreases sectors - si,
        {
            let ghost before = verts@;
            verts.push(DiscVertex::Ring { ring: ri as u32, sector: si });
            assert forall|r: int, s: int|
                0 <= r <= ri - 1 && 0 <= s < sectors && (r < ri - 1 || s < si + 1) implies #[trigger] verts@[band_vertex(
                    1,
                    sectors as int,
                    r,
                    s,
                )] == (DiscVertex::Ring { ring: (r + 1) as u32, sector: s as u32 }) by {
                if r < ri - 1 || s < si {
                    lemma_cell_order(r, s, ri - 1, si as int, sectors as int);
                    assert(verts@[band_vertex(1, sectors as int, r, s)] == before[band_vertex(1, sectors as int, r, s)]);
                }
            }
            si = si + 1;
        }
        proof {
            assert((ri - 1) * sectors + sectors == ri * sectors) by (nonlinear_arith);
        }
        ri = ri + 1;
    }

    assert forall|p: int, q: int| 0 <= p < verts@.len() && 0 <= q < verts@.len() && p != q implies verts@[p] != verts@[q] by {
        if p > 0 {
            let pp = lemma_band_point(1, sectors as int, rings as int, p);
            assert(verts@[band_vertex(1, sectors as int, pp.0, pp.1)] == (DiscVertex::Ring { ring: (pp.0 + 1) as u32, sector: pp.1 as u32 }));
        }
        if q > 0 {
            let qq = lemma_band_point(1, sectors as int, rings as int, q);
            assert(verts@[band_vertex(1, sectors as int, qq.0, qq.1)] == (DiscVertex::Ring { ring: (qq.0 + 1) as u32, sector: qq.1 as u32 }));
        }
    }

    let mut idx: Vec<u16> = Vec::new();
    if rings == 0 {
        // the centre alone: no ring to fan out to
        return (verts, idx);
    }
    proof {
        assert(sectors <= rings * sectors) by (nonlinear_arith)
            requires
                rings >= 1,
        ;
    }
    let mut si: u32 = 0;
    while si < sectors
        invariant
            si <= sectors,
            sectors <= 65535,
            idx@.len() == 3 * si,
            forall|t: int| 0 <= t < si ==> #[trigger] tri(idx@, t) == disc_fan_triangle(sectors as int, t),
            forall|k: int| 0 <= k < idx@.len() ==> #[trigger] idx@[k] <= sectors,
        decreases sectors - si,
    {
        let a: u32 = 1 + si;
        let b: u32 = 1 + (si + 1) % sectors;
        let ghost before = idx@;
        push_triangle(&mut idx, 0, a as u16, b as u16);
        assert forall|t: int| 0 <= t < si + 1 implies #[trigger] tri(idx@, t) == disc_fan_triangle(sectors as int, t) by {
            if t < si {
                assert(tri(idx@, t) == tri(before, t));
            }
        }
        assert forall|k: int| 0 <= k < idx@.len() implies #[trigger] idx@[k] <= sectors by {
            if k < before.len() {
                assert(idx@[k] == before[k]);
            }
        }
        si = si + 1;
    }

    let rows: u32 = rings - 1;
    let ghost fan = idx@;
    push_band(&mut idx, 1, rows, sectors);
    proof {
        assert forall|t: int| 0 <= t < sectors implies #[trigger] tri(idx@, t) == disc_fan_triangle(sectors as int, t) by {
            assert(tri(fan, t) == disc_fan_triangle(sectors as int, t));
            assert(idx@[3 * t] == fan[3 * t]);
            assert(idx@[3 * t + 1] == fan[3 * t + 1]);
            assert(idx@[3 * t + 2] == fan[3 * t + 2]);
        }
        assert forall|k: int| 0 <= k < idx@.len() implies idx@[k] < disc_vertex_count(rings as int, sectors as int) by {
            if k < fan.len() {
                assert(idx@[k] == fan[k]);
            }
        }
        let c = sectors as int;
        assert forall|si: int|
            #![trigger tri(idx@, si)]
            rings >= 1 && 0 <= si < sectors implies {
                let tr = tri(idx@, si);
                let next = if si + 1 < sectors { si + 1 } else { 0 };
                &&& verts@[tr.0] == DiscVertex::Center
                &&& verts@[tr.1] == (DiscVertex::Ring { ring: 1, sector: si as u32 })
                &&& verts@[tr.2] == (DiscVertex::Ring { ring: 1, sector: next as u32 })
            } by {
            lemma_wrap_next(si, c);
            let next = (si + 1) % c;
            assert(0 * c == 0);
            assert(verts@[band_vertex(1, c, 0, si)] == (DiscVertex::Ring { ring: 1, sector: si as u32 }));
            assert(verts@[band_vertex(1, c, 0, next)] == (DiscVertex::Ring { ring: 1, sector: next as u32 }));
        }
        assert forall|r: int, si: int|
            #![trigger quad(idx@, band_tri(c, c, r, si))]
            0 <= r < rings - 1 && 0 <= si < sectors implies {
                let q = quad(idx@, band_tri(c, c, r, si));
                let next = if si + 1 < sectors { si + 1 } else { 0 };
                &&& q.1.0 == q.0.2
                &&& q.1.1 == q.0.1
                &&& q.0.1 == q.0.0 + sectors
                &&& q.1.2 == q.0.2 + sectors
                &&& verts@[q.0.0] == (DiscVertex::Ring { ring: (r + 1) as u32, sector: si as u32 })
                &&& verts@[q.0.2] == (DiscVertex::Ring { ring: (r + 1) as u32, sector: next as u32 })
                &&& verts@[q.0.1] == (DiscVertex::Ring { ring: (r + 2) as u32, sector: si as u32 })
                &&& verts@[q.1.2] == (DiscVertex::Ring { ring: (r + 2) as u32, sector: next as u32 })
            } by {
            assert(quad(idx@, band_tri(c, c, r, si)) == band_quad(1, c, r, si));
            lemma_wrap_next(si, c);
            let next = (si + 1) % c;
            assert((r + 1) * c == r * c + c) by (nonlinear_arith);
            assert(verts@[band_vertex(1, c, r, si)] == (DiscVertex::Ring { ring: (r + 1) as u32, sector: si as u32 }));
            assert(verts@[band_vertex(1, c, r, next)] == (DiscVertex::Ring { ring: (r + 1) as u32, sector: next as u32 }));
            assert(verts@[band_vertex(1, c, r + 1, si)] == (DiscVertex::Ring { ring: (r + 2) as u32, sector: si as u32 }));
            assert(verts@[band_vertex(1, c, r + 1, next)] == (DiscVertex::Ring { ring: (r + 2) as u32, sector: next as u32 }));
        }
        lemma_disc_faces(rings as int, sectors as int, idx@);
    }
    (verts, idx)
}

/// From two sectors on no disc triangle repeats a vertex; every edge of the
/// disc, except those along its outermost ring, is walked both ways.
proof fn lemma_disc_faces(rings: int, sectors: int, idx: Seq<u16>)
    requires
        rings >= 1,
        sectors >= 0,
        idx.len() == 3 * sectors + 6 * (disc_band_rows(rings) * sectors),
        forall|si: int| 0 <= si < sectors ==> #[trigger] tri(idx, si) == disc_fan_triangle(sectors, si),
        is_band(idx, sectors, 1, disc_band_rows(rings), sectors),
    ensures
        sectors >= 2 ==> non_degenerate(idx),
        edges_paired_except(idx, |u: int, v: int| disc_rim_edge(rings, sectors, u, v)),
{
    let rows = disc_band_rows(rings);
    assert forall|t: int| 0 <= t < idx.len() / 3 && sectors >= 2 implies distinct3(#[trigger] tri(idx, t)) by {
        if t < sectors {
            lemma_wrap_next(t, sectors);
        } else {
            let cell = lemma_band_cell(sectors, rows, sectors, t);
            assert(quad(idx, band_tri(sectors, sectors, cell.0, cell.1)) == band_quad(1, sectors, cell.0, cell.1));
            lemma_band_quad_distinct(1, sectors, cell.0, cell.1);
        }
    }
    assert forall|t: int, u: int, v: int|
        0 <= t < idx.len() / 3 && #[trigger] has_edge(tri(idx, t), u, v) && !((|u: int, v: int|
            disc_rim_edge(rings, sectors, u, v))(u, v)) implies buffer_has_edge(idx, v, u) by {
        if t < sectors {
            let si = t;
            let prev = if si == 0 { sectors - 1 } else { si - 1 };
            let next = (si + 1) % sectors;
            lemma_wrap_next(si, sectors);
            lemma_wrap_next(prev, sectors);
            let tr = tri(idx, t);
            assert(tr == disc_fan_triangle(sectors, si));
            if tr.0 == u && tr.1 == v {
                assert(tri(idx, prev) == disc_fan_triangle(sectors, prev));
                assert(has_edge(tri(idx, prev), v, u));
            } else if tr.1 == u && tr.2 == v {
                if rows >= 1 {
                    let s = band_tri(sectors, sectors, 0, si);
                    assert(quad(idx, s) == band_quad(1, sectors, 0, si));
                    assert(0 * sectors == 0);
                    assert(rows * sectors >= sectors) by (nonlinear_arith)
                        requires
                            rows >= 1,
                            sectors >= 0,
                    ;
                    assert(has_edge(tri(idx, s), v, u));
                } else {
                    assert((rings - 1) * sectors <= 0) by (nonlinear_arith)
                        requires
                            rings <= 1,
                            sectors >= 0,
                    ;
                }
            } else {
                assert(tri(idx, next) == disc_fan_triangle(sectors, next));
                assert(has_edge(tri(idx, next), v, u));
            }
        } else {
            lemma_band_edge(idx, sectors, 1, rows, sectors, t, u, v);
            if 1 <= v < 1 + sectors && u == 1 + (v - 1 + 1) % sectors {
                let c = v - 1;
                lemma_wrap_next(c, sectors);
                assert(tri(idx, c) == disc_fan_triangle(sectors, c));
                assert(has_edge(tri(idx, c), v, u));
            }
        }
    }
}

} // verus!
