//! Vocabulary shared by the mesh generators: reading an index buffer as a
//! triangle list, and the properties that a well-formed buffer has.

use vstd::prelude::*;

verus! {

/// The `t`-th triangle of an index buffer read three entries at a time.
pub open spec fn tri(idx: Seq<u16>, t: int) -> (int, int, int) {
    (idx[3 * t] as int, idx[3 * t + 1] as int, idx[3 * t + 2] as int)
}

/// Every entry of `idx` names one of the first `n` vertices.
pub open spec fn indices_below(idx: Seq<u16>, n: int) -> bool {
    forall|k: int| 0 <= k < idx.len() ==> idx[k] < n
}

/// The three corners of a triangle are three different vertices.
pub open spec fn distinct3(tr: (int, int, int)) -> bool {
    tr.0 != tr.1 && tr.1 != tr.2 && tr.0 != tr.2
}

/// No triangle of the buffer repeats a vertex.
pub open spec fn non_degenerate(idx: Seq<u16>) -> bool {
    forall|t: int| 0 <= t < idx.len() / 3 ==> distinct3(#[trigger] tri(idx, t))
}

/// Walking the corners of `tr` in order passes along the directed edge `u -> v`.
pub open spec fn has_edge(tr: (int, int, int), u: int, v: int) -> bool {
    ||| (tr.0 == u && tr.1 == v)
    ||| (tr.1 == u && tr.2 == v)
    ||| (tr.2 == u && tr.0 == v)
}

/// Some triangle of the buffer passes along the directed edge `u -> v`.
pub open spec fn buffer_has_edge(idx: Seq<u16>, u: int, v: int) -> bool {
    exists|s: int| 0 <= s < idx.len() / 3 && #[trigger] has_edge(tri(idx, s), u, v)
}

/// Paired edges: every directed edge `u -> v` of a triangle, unless
/// `boundary(u, v)` holds, is also walked the other way, `v -> u`, by some
/// triangle of the buffer.
pub open spec fn edges_paired_except(idx: Seq<u16>, boundary: spec_fn(int, int) -> bool) -> bool {
    forall|t: int, u: int, v: int|
        0 <= t < idx.len() / 3 && #[trigger] has_edge(tri(idx, t), u, v) && !boundary(u, v)
            ==> buffer_has_edge(idx, v, u)
}

/// Appends one triangle to an index buffer that holds whole triangles.
pub fn push_triangle(idx: &mut Vec<u16>, a: u16, b: u16, c: u16)
    requires
        old(idx)@.len() % 3 == 0,
    ensures
        final(idx)@ == old(idx)@.push(a).push(b).push(c),
        final(idx)@.len() == old(idx)@.len() + 3,
        final(idx)@.len() % 3 == 0,
        final(idx)@.len() / 3 == old(idx)@.len() / 3 + 1,
        tri(final(idx)@, old(idx)@.len() as int / 3) == (a as int, b as int, c as int),
        forall|t: int| 0 <= t < old(idx)@.len() / 3 ==> #[trigger] tri(final(idx)@, t) == tri(old(idx)@, t),
{
    idx.push(a);
    idx.push(b);
    idx.push(c);
}

} // verus!
