//! The barn: a prism over a five-cornered barn silhouette. The silhouette
//! is drawn once at the front and once at the back, each capped by a fan
//! from its first corner; each of the five side walls has four vertices of
//! its own so that it can be tinted on its own.

use vstd::prelude::*;
use crate::topology::{tri, indices_below, non_degenerate, distinct3, push_triangle};
use crate::band::quad;

verus! {

/// Number of corners of the barn silhouette: roof top, left eave, bottom
/// left, bottom right, right eave.
pub const BARN_CORNERS: usize = 5;

/// How brightly a wall vertex is tinted, relative to the wall's colour.
#[derive(Clone, Copy, Debug, PartialEq, Eq, Structural)]
pub enum Shade {
    /// The wall colour itself.
    Full,
    /// The darker of the two shaded corners.
    Deep,
    /// The lighter of the two shaded corners.
    Soft,
}

/// The colour a barn vertex takes.
#[derive(Clone, Copy, Debug, PartialEq, Eq, Structural)]
pub enum BarnPaint {
    /// The front gable colour.
    FrontCap,
    /// The back gable colour.
    BackCap,
    /// The colour of wall `wall`, with a shade.
    Wall(usize, Shade),
}

/// What a vertex of the barn stands for: silhouette corner `corner`, on the
/// front face or (when `back`) the back face, with its paint.
#[derive(Clone, Copy, Debug, PartialEq, Eq, Structural)]
pub struct BarnVertex {
    pub corner: usize,
    pub back: bool,
    pub paint: BarnPaint,
}

/// Number of vertices of the barn: both caps, and four per wall.
pub open spec fn barn_vertex_count() -> int {
    6 * BARN_CORNERS
}

/// Number of triangles of the barn: three per cap fan, two per wall.
pub open spec fn barn_triangle_count() -> int {
    2 * (BARN_CORNERS - 2) + 2 * BARN_CORNERS
}

/// The `k`-th vertex of the barn. The front silhouette comes first, then
/// the back one; then, wall by wall, the four corners of wall `w` (which
/// runs from corner `w` to the next corner): front of corner `w`, front of
/// the next corner (deep shade), back of the next corner (soft shade), back
/// of corner `w`.
pub open spec fn barn_vertex(k: int) -> BarnVertex {
    let n = BARN_CORNERS as int;
    if k < n {
        BarnVertex { corner: k as usize, back: false, paint: BarnPaint::FrontCap }
    } else if k < 2 * n {
        BarnVertex { corner: (k - n) as usize, back: true, paint: BarnPaint::BackCap }
    } else {
        let w = (k - 2 * n) / 4;
        let m = (k - 2 * n) % 4;
        let j = (w + 1) % n;
        if m == 0 {
            BarnVertex { corner: w as usize, back: false, paint: BarnPaint::Wall(w as usize, Shade::Full) }
        } else if m == 1 {
            BarnVertex { corner: j as usize, back: false, paint: BarnPaint::Wall(w as usize, Shade::Deep) }
        } else if m == 2 {
            BarnVertex { corner: j as usize, back: true, paint: BarnPaint::Wall(w as usize, Shade::Soft) }
        } else {
            BarnVertex { corner: w as usize, back: true, paint: BarnPaint::Wall(w as usize, Shade::Full) }
        }
    }
}

/// Triangle `t` of the barn. First the front fan `(0, i, i + 1)`, then the
/// back fan `(n, n + i + 1, n + i)` wound the other way, then the two
/// triangles `(a, a+1, a+2)` and `(a, a+2, a+3)` of each wall whose first
/// vertex is `a`.
pub open spec fn barn_triangle(t: int) -> (int, int, int) {
    let n = BARN_CORNERS as int;
    if t < n - 2 {
        (0, t + 1, t + 2)
    } else if t < 2 * (n - 2) {
        let i = t - (n - 2) + 1;
        (n, n + i + 1, n + i)
    } else {
        let w = (t - 2 * (n - 2)) / 2;
        let a = 2 * n + 4 * w;
        if (t - 2 * (n - 2)) % 2 == 0 {
            (a, a + 1, a + 2)
        } else {
            (a, a + 2, a + 3)
        }
    }
}

/// The two triangles of wall `w` in an index buffer laid out as the barn's:
/// the triangles after both cap fans, two per wall.
pub open spec fn barn_wall(idx: Seq<u16>, w: int) -> ((int, int, int), (int, int, int)) {
    quad(idx, 2 * (BARN_CORNERS - 2) + 2 * w)
}

/// Builds the vertex layout and index buffer of the barn.
pub fn make_barn() -> (res: (Vec<BarnVertex>, Vec<u16>))
    ensures
        res.0@.len() == barn_vertex_count(),
        forall|k: int| 0 <= k < res.0@.len() ==> #[trigger] res.0@[k] == barn_vertex(k),
        res.0@.no_duplicates(),
        res.1@.len() == 3 * barn_triangle_count(),
        forall|t: int| 0 <= t < barn_triangle_count() ==> #[trigger] tri(res.1@, t) == barn_triangle(t),
        indices_below(res.1@, barn_vertex_count()),
        forall|i: int|
            #![trigger tri(res.1@, i)]
            0 <= i < BARN_CORNERS - 2 ==> {
                let tr = tri(res.1@, i);
                &&& res.0@[tr.0] == (BarnVertex { corner: 0, back: false, paint: BarnPaint::FrontCap })
                &&& res.0@[tr.1] == (BarnVertex { corner: (i + 1) as usize, back: false, paint: BarnPaint::FrontCap })
                &&& res.0@[tr.2] == (BarnVertex { corner: (i + 2) as usize, back: false, paint: BarnPaint::FrontCap })
            },
        forall|i: int|
            #![trigger tri(res.1@, i)]
            BARN_CORNERS - 2 <= i < 2 * (BARN_CORNERS - 2) ==> {
                let tr = tri(res.1@, i);
                let j = i - (BARN_CORNERS - 2);
                &&& res.0@[tr.0] == (BarnVertex { corner: 0, back: true, paint: BarnPaint::BackCap })
                &&& res.0@[tr.1] == (BarnVertex { corner: (j + 2) as usize, back: true, paint: BarnPaint::BackCap })
                &&& res.0@[tr.2] == (BarnVertex { corner: (j + 1) as usize, back: true, paint: BarnPaint::BackCap })
            },
        forall|w: int|
            #![trigger barn_wall(res.1@, w)]
            0 <= w < BARN_CORNERS ==> {
                let q = barn_wall(res.1@, w);
                let next = if w + 1 < BARN_CORNERS { w + 1 } else { 0 };
                &&& q.1.0 == q.0.0
                &&& q.1.1 == q.0.2
                &&& res.0@[q.0.0] == (BarnVertex { corner: w as usize, back: false, paint: BarnPaint::Wall(w as usize, Shade::Full) })
                &&& res.0@[q.0.1] == (BarnVertex { corner: next as usize, back: false, paint: BarnPaint::Wall(w as usize, Shade::Deep) })
                &&& res.0@[q.0.2] == (BarnVertex { corner: next as usize, back: true, paint: BarnPaint::Wall(w as usize, Shade::Soft) })
                &&& res.0@[q.1.2] == (BarnVertex { corner: w as usize, back: true, paint: BarnPaint::Wall(w as usize, Shade::Full) })
            },
        non_degenerate(res.1@),
{
    let n: usize = BARN_CORNERS;
    let mut verts: Vec<BarnVertex> = Vec::new();
    let mut idx: Vec<u16> = Vec::new();

    // front and back silhouettes
    let mut i: usize = 0;
    while i < n
        invariant
            n == BARN_CORNERS,
            i <= n,
            verts@.len() == i,
            forall|k: int| 0 <= k < verts@.len() ==> #[trigger] verts@[k] == barn_vertex(k),
        decreases n - i,
    {
        verts.push(BarnVertex { corner: i, back: false, paint: BarnPaint::FrontCap });
        i = i + 1;
    }
    let mut i: usize = 0;
    while i < n
        invariant
            n == BARN_CORNERS,
            i <= n,
            verts@.len() == n + i,
            forall|k: int| 0 <= k < verts@.len() ==> #[trigger] verts@[k] == barn_vertex(k),
        decreases n - i,
    {
        verts.push(BarnVertex { corner: i, back: true, paint: BarnPaint::BackCap });
        i = i + 1;
    }

    // front cap: fan from vertex 0
    let mut i: usize = 1;
    while i < n - 1
        invariant
            n == BARN_CORNERS,
            1 <= i <= n - 1,
            idx@.len() == 3 * (i - 1),
            forall|t: int| 0 <= t < i - 1 ==> #[trigger] tri(idx@, t) == barn_triangle(t),
            indices_below(idx@, barn_vertex_count()),
        decreases n - 1 - i,
    {
        let ghost before = idx@;
        push_triangle(&mut idx, 0, i as u16, (i + 1) as u16);
        assert forall|t: int| 0 <= t < i implies #[trigger] tri(idx@, t) == barn_triangle(t) by {
            if t < i - 1 {
                assert(tri(idx@, t) == tri(before, t));
            }
        }
        i = i + 1;
    }

    // back cap: fan from vertex n, wound the other way
    let mut i: usize = 1;
    while i < n - 1
        invariant
            n == BARN_CORNERS,
            1 <= i <= n - 1,
            idx@.len() == 3 * (n - 2) + 3 * (i - 1),
            forall|t: int| 0 <= t < (n - 2) + i - 1 ==> #[trigger] tri(idx@, t) == barn_triangle(t),
            indices_below(idx@, barn_vertex_count()),
        decreases n - 1 - i,
    {
        let ghost before = idx@;
        push_triangle(&mut idx, n as u16, (n + i + 1) as u16, (n + i) as u16);
        assert forall|t: int| 0 <= t < (n - 2) + i implies #[trigger] tri(idx@, t) == barn_triangle(t) by {
            if t < (n - 2) + i - 1 {
                assert(tri(idx@, t) == tri(before, t));
            }
        }
        i = i + 1;
    }

    // side walls, four vertices each
    let mut i: usize = 0;
    while i < n
        invariant
            n == BARN_CORNERS,
            i <= n,
            verts@.len() == 2 * n + 4 * i,
            forall|k: int| 0 <= k < verts@.len() ==> #[trigger] verts@[k] == barn_vertex(k),
            idx@.len() == 6 * (n - 2) + 6 * i,
            forall|t: int| 0 <= t < 2 * (n - 2) + 2 * i ==> #[trigger] tri(idx@, t) == barn_triangle(t),
            indices_below(idx@, barn_vertex_count()),
        decreases n - i,
    {
        let j = (i + 1) % n;
        let base = verts.len();
        verts.push(BarnVertex { corner: i, back: false, paint: BarnPaint::Wall(i, Shade::Full) });
        verts.push(BarnVertex { corner: j, back: false, paint: BarnPaint::Wall(i, Shade::Deep) });
        verts.push(BarnVertex { corner: j, back: true, paint: BarnPaint::Wall(i, Shade::Soft) });
        verts.push(BarnVertex { corner: i, back: true, paint: BarnPaint::Wall(i, Shade::Full) });
        let b = base as u16;
        let ghost before = idx@;
        push_triangle(&mut idx, b, b + 1, b + 2);
        let ghost mid = idx@;
        push_triangle(&mut idx, b, b + 2, b + 3);
        assert forall|t: int| 0 <= t < 2 * (n - 2) + 2 * (i + 1) implies #[trigger] tri(idx@, t) == barn_triangle(t) by {
            if t < 2 * (n - 2) + 2 * i {
                assert(tri(mid, t) == tri(before, t));
            } else if t == 2 * (n - 2) + 2 * i {
                assert(tri(idx@, t) == tri(mid, t));
            }
        }
        i = i + 1;
    }

    assert forall|t: int| 0 <= t < idx@.len() / 3 implies distinct3(#[trigger] tri(idx@, t)) by {
        assert(tri(idx@, t) == barn_triangle(t));
    }
    assert forall|i: int| #![trigger tri(idx@, i)] 0 <= i < 2 * (BARN_CORNERS - 2) implies {
        let tr = tri(idx@, i);
        let j = i - (BARN_CORNERS - 2);
        if i < BARN_CORNERS - 2 {
            &&& verts@[tr.0] == (BarnVertex { corner: 0, back: false, paint: BarnPaint::FrontCap })
            &&& verts@[tr.1] == (BarnVertex { corner: (i + 1) as usize, back: false, paint: BarnPaint::FrontCap })
            &&& verts@[tr.2] == (BarnVertex { corner: (i + 2) as usize, back: false, paint: BarnPaint::FrontCap })
        } else {
            &&& verts@[tr.0] == (BarnVertex { corner: 0, back: true, paint: BarnPaint::BackCap })
            &&& verts@[tr.1] == (BarnVertex { corner: (j + 2) as usize, back: true, paint: BarnPaint::BackCap })
            &&& verts@[tr.2] == (BarnVertex { corner: (j + 1) as usize, back: true, paint: BarnPaint::BackCap })
        }
    } by {
        let tr = tri(idx@, i);
        assert(tr == barn_triangle(i));
        assert(verts@[tr.0] == barn_vertex(tr.0));
        assert(verts@[tr.1] == barn_vertex(tr.1));
        assert(verts@[tr.2] == barn_vertex(tr.2));
    }
    assert forall|w: int| #![trigger barn_wall(idx@, w)] 0 <= w < BARN_CORNERS implies {
        let q = barn_wall(idx@, w);
        let next = if w + 1 < BARN_CORNERS { w + 1 } else { 0 };
        &&& q.1.0 == q.0.0
        &&& q.1.1 == q.0.2
        &&& verts@[q.0.0] == (BarnVertex { corner: w as usize, back: false, paint: BarnPaint::Wall(w as usize, Shade::Full) })
        &&& verts@[q.0.1] == (BarnVertex { corner: next as usize, back: false, paint: BarnPaint::Wall(w as usize, Shade::Deep) })
        &&& verts@[q.0.2] == (BarnVertex { corner: next as usize, back: true, paint: BarnPaint::Wall(w as usize, Shade::Soft) })
        &&& verts@[q.1.2] == (BarnVertex { corner: w as usize, back: true, paint: BarnPaint::Wall(w as usize, Shade::Full) })
    } by {
        let t = 2 * (BARN_CORNERS - 2) + 2 * w;
        let q = barn_wall(idx@, w);
        assert(tri(idx@, t) == barn_triangle(t));
        assert(tri(idx@, t + 1) == barn_triangle(t + 1));
        assert(verts@[q.0.0] == barn_vertex(q.0.0));
        assert(verts@[q.0.1] == barn_vertex(q.0.1));
        assert(verts@[q.0.2] == barn_vertex(q.0.2));
        assert(verts@[q.1.2] == barn_vertex(q.1.2));
    }
    assert forall|p: int, q: int| 0 <= p < verts@.len() && 0 <= q < verts@.len() && p != q implies verts@[p] != verts@[q] by {
        assert(verts@[p] == barn_vertex(p));
        assert(verts@[q] == barn_vertex(q));
    }
    (verts, idx)
}

/// The back cap is the front cap moved onto the back silhouette (vertex
/// `n` on) with its winding reversed.
pub proof fn lemma_barn_back_cap_mirrors_front(t: int)
    requires
        0 <= t < BARN_CORNERS - 2,
    ensures
        barn_triangle(t + BARN_CORNERS - 2) == (
            barn_triangle(t).0 + BARN_CORNERS,
            barn_triangle(t).2 + BARN_CORNERS,
            barn_triangle(t).1 + BARN_CORNERS,
        ),
{
}

} // verus!
