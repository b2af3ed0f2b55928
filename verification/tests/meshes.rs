use parametric_meshes::barn::{make_barn, BarnPaint, BarnVertex, Shade};
use parametric_meshes::cone::{make_cone, ConeVertex};
use parametric_meshes::disc::{make_disc, DiscVertex};
use parametric_meshes::vase::{make_vase, VaseVertex};

fn triangles(idx: &[u16]) -> Vec<(u16, u16, u16)> {
    assert_eq!(idx.len() % 3, 0);
    idx.chunks(3).map(|c| (c[0], c[1], c[2])).collect()
}

fn all_below(idx: &[u16], n: usize) -> bool {
    idx.iter().all(|&i| (i as usize) < n)
}

fn non_degenerate(idx: &[u16]) -> bool {
    triangles(idx).iter().all(|&(a, b, c)| a != b && b != c && a != c)
}

fn has_edge(t: (u16, u16, u16), u: u16, v: u16) -> bool {
    (t.0 == u && t.1 == v) || (t.1 == u && t.2 == v) || (t.2 == u && t.0 == v)
}

/// Directed edges whose reverse no triangle walks.
fn unpaired_edges(idx: &[u16]) -> Vec<(u16, u16)> {
    let tris = triangles(idx);
    let mut out = Vec::new();
    for t in &tris {
        for (u, v) in [(t.0, t.1), (t.1, t.2), (t.2, t.0)] {
            if !tris.iter().any(|&s| has_edge(s, v, u)) {
                out.push((u, v));
            }
        }
    }
    out
}

#[test]
fn barn_counts_and_caps() {
    let (verts, idx) = make_barn();
    assert_eq!(verts.len(), 30);
    assert_eq!(idx.len(), 48);
    assert_eq!(&idx[0..9], &[0, 1, 2, 0, 2, 3, 0, 3, 4]);
    assert_eq!(&idx[9..18], &[5, 7, 6, 5, 8, 7, 5, 9, 8]);
    assert_eq!(&idx[18..24], &[10, 11, 12, 10, 12, 13]);
    assert_eq!(&idx[42..48], &[26, 27, 28, 26, 28, 29]);
    assert!(all_below(&idx, verts.len()));
    assert!(non_degenerate(&idx));
}

#[test]
fn barn_vertex_layout() {
    let (verts, _) = make_barn();
    for k in 0..5 {
        assert_eq!(verts[k], BarnVertex { corner: k, back: false, paint: BarnPaint::FrontCap });
        assert_eq!(verts[5 + k], BarnVertex { corner: k, back: true, paint: BarnPaint::BackCap });
    }
    // the last wall runs from the right eave back to the roof top
    assert_eq!(verts[26], BarnVertex { corner: 4, back: false, paint: BarnPaint::Wall(4, Shade::Full) });
    assert_eq!(verts[27], BarnVertex { corner: 0, back: false, paint: BarnPaint::Wall(4, Shade::Deep) });
    assert_eq!(verts[28], BarnVertex { corner: 0, back: true, paint: BarnPaint::Wall(4, Shade::Soft) });
    assert_eq!(verts[29], BarnVertex { corner: 4, back: true, paint: BarnPaint::Wall(4, Shade::Full) });
}

#[test]
fn barn_back_cap_is_front_cap_reversed() {
    let (_, idx) = make_barn();
    let tris = triangles(&idx);
    for t in 0..3 {
        let f = tris[t];
        assert_eq!(tris[t + 3], (f.0 + 5, f.2 + 5, f.1 + 5));
    }
}

#[test]
fn cone_four_sides() {
    let (verts, idx) = make_cone(4);
    assert_eq!(
        verts,
        vec![
            ConeVertex::Tip,
            ConeVertex::BaseCenter,
            ConeVertex::Rim(0),
            ConeVertex::Rim(1),
            ConeVertex::Rim(2),
            ConeVertex::Rim(3)
        ]
    );
    assert_eq!(
        idx,
        vec![0, 2, 3, 1, 3, 2, 0, 3, 4, 1, 4, 3, 0, 4, 5, 1, 5, 4, 0, 5, 2, 1, 2, 5]
    );
}

#[test]
fn cone_without_sides() {
    let (verts, idx) = make_cone(0);
    assert_eq!(verts, vec![ConeVertex::Tip, ConeVertex::BaseCenter]);
    assert!(idx.is_empty());
}

#[test]
fn cone_single_rim_point_is_degenerate() {
    let (verts, idx) = make_cone(1);
    assert_eq!(verts.len(), 3);
    assert_eq!(idx, vec![0, 2, 2, 1, 2, 2]);
    assert!(!non_degenerate(&idx));
    assert!(unpaired_edges(&idx).is_empty());
}

#[test]
fn cone_of_the_viewer_is_closed() {
    let (verts, idx) = make_cone(32);
    assert_eq!(verts.len(), 34);
    assert_eq!(idx.len(), 192);
    assert!(all_below(&idx, verts.len()));
    assert!(non_degenerate(&idx));
    assert!(unpaired_edges(&idx).is_empty());
    // the apex is stored once and used by every side face
    assert_eq!(idx.iter().filter(|&&i| i == 0).count(), 32);
}

#[test]
fn cone_largest() {
    let (verts, idx) = make_cone(65534);
    assert_eq!(verts.len(), 65536);
    assert_eq!(idx.len(), 6 * 65534);
    assert_eq!(*idx.iter().max().unwrap(), 65535);
    assert_eq!(&idx[idx.len() - 6..], &[0, 65535, 2, 1, 2, 65535]);
}

#[test]
fn vase_small() {
    let (verts, idx) = make_vase(2, 3);
    assert_eq!(verts.len(), 9);
    assert_eq!(verts[0], VaseVertex { stack: 0, slice: 0 });
    assert_eq!(verts[5], VaseVertex { stack: 1, slice: 2 });
    assert_eq!(verts[8], VaseVertex { stack: 2, slice: 2 });
    assert_eq!(idx.len(), 36);
    assert_eq!(&idx[0..6], &[0, 3, 1, 1, 3, 4]);
    // the last quad of a ring wraps round to its first column
    assert_eq!(&idx[12..18], &[2, 5, 0, 0, 5, 3]);
    assert_eq!(&idx[30..36], &[5, 8, 3, 3, 8, 6]);
}

#[test]
fn vase_of_the_viewer() {
    let (verts, idx) = make_vase(24, 32);
    assert_eq!(verts.len(), 25 * 32);
    assert_eq!(idx.len(), 6 * 24 * 32);
    assert!(all_below(&idx, verts.len()));
    assert!(non_degenerate(&idx));
    // only the bottom and the top rings are open
    for (u, v) in unpaired_edges(&idx) {
        let bottom = (u as usize) < 32 && (v as usize) < 32;
        let top = (u as usize) >= 24 * 32 && (v as usize) >= 24 * 32;
        assert!(bottom || top, "edge {} -> {}", u, v);
    }
    assert_eq!(unpaired_edges(&idx).len(), 64);
}

#[test]
fn vase_empty_cases() {
    let (verts, idx) = make_vase(0, 5);
    assert_eq!(verts.len(), 5);
    assert!(idx.is_empty());
    let (verts, idx) = make_vase(7, 0);
    assert!(verts.is_empty());
    assert!(idx.is_empty());
}

#[test]
fn disc_small() {
    let (verts, idx) = make_disc(2, 3);
    assert_eq!(
        verts,
        vec![
            DiscVertex::Center,
            DiscVertex::Ring { ring: 1, sector: 0 },
            DiscVertex::Ring { ring: 1, sector: 1 },
            DiscVertex::Ring { ring: 1, sector: 2 },
            DiscVertex::Ring { ring: 2, sector: 0 },
            DiscVertex::Ring { ring: 2, sector: 1 },
            DiscVertex::Ring { ring: 2, sector: 2 },
        ]
    );
    assert_eq!(
        idx,
        vec![
            0, 1, 2, 0, 2, 3, 0, 3, 1, // centre fan
            1, 4, 2, 2, 4, 5, 2, 5, 3, 3, 5, 6, 3, 6, 1, 1, 6, 4,
        ]
    );
}

#[test]
fn disc_of_the_viewer() {
    let (verts, idx) = make_disc(8, 48);
    assert_eq!(verts.len(), 1 + 8 * 48);
    assert_eq!(idx.len(), 3 * 48 + 6 * 7 * 48);
    assert!(all_below(&idx, verts.len()));
    assert!(non_degenerate(&idx));
    let rim = 1 + 7 * 48;
    for (u, v) in unpaired_edges(&idx) {
        assert!(u as usize >= rim && v as usize >= rim, "edge {} -> {}", u, v);
    }
    assert_eq!(unpaired_edges(&idx).len(), 48);
}

#[test]
fn disc_single_ring_is_a_fan() {
    let (verts, idx) = make_disc(1, 4);
    assert_eq!(verts.len(), 5);
    assert_eq!(idx, vec![0, 1, 2, 0, 2, 3, 0, 3, 4, 0, 4, 1]);
}

#[test]
fn disc_without_rings_is_the_centre_alone() {
    let (verts, idx) = make_disc(0, 3);
    assert_eq!(verts, vec![DiscVertex::Center]);
    assert!(idx.is_empty());
    let (verts, idx) = make_disc(0, 100_000);
    assert_eq!(verts.len(), 1);
    assert!(idx.is_empty());
}

#[test]
fn disc_largest_fan() {
    let (verts, idx) = make_disc(1, 65535);
    assert_eq!(verts.len(), 65536);
    assert_eq!(&idx[idx.len() - 3..], &[0, 65535, 1]);
}
