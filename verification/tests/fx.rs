use explora::fx_gpu::{
    build_plume_cone, build_trail_indices, CONE_INDEX_COUNT, CONE_SEGMENTS, PLUME_VERT_BYTES,
    TRAIL_EMITTERS, TRAIL_MAX_QUADS_PER_EMITTER, TRAIL_VERTS_PER_EMITTER, TRAIL_VERT_BYTES,
};
use std::collections::HashMap;

/// Place a vertex of the plume volume.
fn position(segment: u16, axial: u8, radial: u8, length: f32, radius: f32) -> [f32; 3] {
    let a = segment as f32 / CONE_SEGMENTS as f32 * std::f32::consts::TAU;
    let r = radial as f32 * radius;
    [a.cos() * r, a.sin() * r, -(axial as f32) * length]
}

#[test]
fn cone_counts_hold() {
    let (v, idx) = build_plume_cone();
    let pos: Vec<[f32; 3]> =
        v.iter().map(|p| position(p.segment, p.axial, p.radial, 8.0, 0.5)).collect();
    assert_eq!(v.len(), CONE_SEGMENTS * 2 + 2);
    assert_eq!(idx.len(), CONE_INDEX_COUNT as usize);
    assert_eq!(idx.len() % 3, 0);
    assert!(idx.iter().all(|&i| (i as usize) < v.len()));
    assert!(pos[..CONE_SEGMENTS].iter().all(|p| p[2].abs() < 1e-5));
    assert!(pos[CONE_SEGMENTS..CONE_SEGMENTS * 2].iter().all(|p| (p[2] + 8.0).abs() < 1e-4));
    assert!(pos.iter().take(CONE_SEGMENTS).all(|p| (p[0].hypot(p[1]) - 0.5).abs() < 1e-5));
}

#[test]
fn trail_indices_stay_in_range() {
    let idx = build_trail_indices();
    let max_vert = 5 * TRAIL_MAX_QUADS_PER_EMITTER * 2;
    assert!(idx.iter().all(|&i| (i as usize) < max_vert));
    assert!(idx.len() % 3 == 0);
    for tri in idx.chunks_exact(3) {
        let emitter = tri[0] as usize / (TRAIL_MAX_QUADS_PER_EMITTER * 2);
        assert!(tri.iter().all(|&v| v as usize / (TRAIL_MAX_QUADS_PER_EMITTER * 2) == emitter));
    }
}

#[test]
fn cone_edges_are_shared_by_two_triangles() {
    let (_, idx) = build_plume_cone();
    let mut uses: HashMap<(u16, u16), u32> = HashMap::new();
    for t in idx.chunks_exact(3) {
        for (a, b) in [(t[0], t[1]), (t[1], t[2]), (t[2], t[0])] {
            *uses.entry((a.min(b), a.max(b))).or_insert(0) += 1;
        }
    }
    assert!(uses.values().all(|&n| n == 2));
}

#[test]
fn ribbons_have_a_fixed_pattern() {
    let idx = build_trail_indices();
    assert_eq!(TRAIL_EMITTERS * TRAIL_VERTS_PER_EMITTER, 2560);
    assert_eq!(idx.len(), TRAIL_EMITTERS * (TRAIL_MAX_QUADS_PER_EMITTER - 1) * 6);
    // Every vertex of every emitter is drawn.
    let mut seen = vec![false; 2560];
    for &i in &idx {
        seen[i as usize] = true;
    }
    assert!(seen.iter().all(|&s| s));
    assert_eq!(PLUME_VERT_BYTES, 5 * 4);
    assert_eq!(TRAIL_VERT_BYTES, 13 * 4);
}
