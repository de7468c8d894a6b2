use explora::clouds::{
    family, hash, indices, puff_topology, CLOUD_CELL, CLOUD_CORNERS, CLOUD_CUMULUS_PRESENCE,
    CLOUD_DRAW_RADIUS, CLOUD_GRID, CLOUD_HASH_MAX, CLOUD_PERIOD_CELLS, CLOUD_PUFFS,
    CLOUD_PUFF_TRIS, CLOUD_STREAK_PRESENCE, CLOUD_VERTEX_COUNT, CLOUD_VERTS_PER_CLOUD,
};
use explora::icosphere::{subdivide, ICO_FACES};
use std::collections::{HashMap, HashSet};

#[test]
fn indexed_draw_preserves_every_triangle_and_puff() {
    let indices = indices();
    let corners: Vec<u16> = puff_topology().into_iter().flatten().collect();
    assert_eq!(indices.len(), CLOUD_VERTS_PER_CLOUD as usize);
    for (puff, puff_indices) in indices.chunks_exact(CLOUD_CORNERS as usize).enumerate() {
        let offset = puff as u16 * CLOUD_CORNERS as u16;
        let unique: HashSet<u16> = puff_indices.iter().copied().collect();
        assert_eq!(unique.len(), 642);
        for (corner, &index) in puff_indices.iter().enumerate() {
            assert!(index >= offset && index < offset + CLOUD_CORNERS as u16);
            assert_eq!(corners[(index - offset) as usize], corners[corner]);
        }
    }
}

/// The face table of the cloud vertex shader.
const CLOUD_VERT: &str = "
const int ICO_FACE[60] = int[60](
    0, 11, 5,  0, 5, 1,  0, 7, 1,  0, 7, 10,  0, 11, 10,
    1, 5, 9,  5, 11, 4,  11, 10, 2,  10, 6, 7,  7, 1, 8,
    3, 9, 4,  3, 2, 4,  3, 2, 6,  3, 6, 8,  3, 8, 9,
    4, 9, 5,  2, 4, 11,  6, 2, 10,  8, 7, 6,  9, 1, 8
);
";

#[test]
fn face_order_matches_procedural_shader() {
    let faces = CLOUD_VERT.split("const int ICO_FACE[60] = int[60](").nth(1).unwrap();
    let faces = faces.split(");").next().unwrap();
    let parsed: Vec<u16> = faces.split(',').map(|s| s.trim().parse().unwrap()).collect();
    assert_eq!(parsed, ICO_FACES.into_iter().flatten().collect::<Vec<_>>());
}

#[test]
fn vertex_budget_is_fixed_and_terrain_scale() {
    assert_eq!(CLOUD_PUFF_TRIS, 1280);
    assert_eq!(CLOUD_VERTS_PER_CLOUD, 30_720);
    assert_eq!(CLOUD_VERTEX_COUNT, 11_089_920);
    let mut occupied = 0u32;
    for z in 0..CLOUD_PERIOD_CELLS {
        for x in 0..CLOUD_PERIOD_CELLS {
            if family([x, z]) != 0 {
                occupied += 1;
            }
        }
    }
    let presence = occupied as f32 / (CLOUD_PERIOD_CELLS * CLOUD_PERIOD_CELLS) as f32;
    assert!(presence < 0.55, "occupancy {presence:.3} grew too dense");
}

#[test]
fn corner_decode_covers_every_puff_triangle_once() {
    let mut seen = vec![0u32; (CLOUD_PUFFS * CLOUD_CORNERS) as usize];
    for vertex in 0..CLOUD_VERTS_PER_CLOUD {
        let rest = vertex % CLOUD_VERTS_PER_CLOUD;
        let puff = rest / CLOUD_CORNERS;
        let corner = rest % CLOUD_CORNERS;
        seen[(puff * CLOUD_CORNERS + corner) as usize] += 1;
    }
    assert!(seen.iter().all(|&count| count == 1));
}

#[test]
fn coverage_is_scattered() {
    let mut cumulus = 0u32;
    let mut streaks = 0u32;
    for z in 0..CLOUD_PERIOD_CELLS {
        for x in 0..CLOUD_PERIOD_CELLS {
            match family([x, z]) {
                1 => cumulus += 1,
                2 => streaks += 1,
                _ => {}
            }
        }
    }
    let total = (CLOUD_PERIOD_CELLS * CLOUD_PERIOD_CELLS) as f32;
    let cumulus_rate = cumulus as f32 / total;
    let streak_rate = streaks as f32 / total;
    assert!((0.30..=0.46).contains(&cumulus_rate), "cumulus coverage {cumulus_rate:.3}");
    assert!((0.04..=0.16).contains(&streak_rate), "streak coverage {streak_rate:.3}");
}

#[test]
fn drawn_radius_populates_the_sky() {
    let half = (CLOUD_GRID / 2) as i32;
    let mut visible = 0u32;
    for dz in -half..=half {
        for dx in -half..=half {
            let world = [1_000_001 + dx, -4_000_042 + dz];
            let wrapped = [
                (world[0] as u32) & (CLOUD_PERIOD_CELLS - 1),
                (world[1] as u32) & (CLOUD_PERIOD_CELLS - 1),
            ];
            let distance = CLOUD_CELL as f32 * ((dx * dx + dz * dz) as f32).sqrt();
            if distance <= CLOUD_DRAW_RADIUS as f32 && family(wrapped) == 1 {
                visible += 1;
            }
        }
    }
    assert!(visible > 80, "only {visible} clouds inside the draw radius");
}

#[test]
fn presence_thresholds_agree_with_single_precision() {
    let unit = |h: u32| h as f32 * (1.0 / 16_777_215.0f32);
    assert!(unit(CLOUD_CUMULUS_PRESENCE - 1) < 0.38);
    assert!(!(unit(CLOUD_CUMULUS_PRESENCE) < 0.38));
    assert!(unit(CLOUD_STREAK_PRESENCE - 1) < 0.10);
    assert!(!(unit(CLOUD_STREAK_PRESENCE) < 0.10));
}

#[test]
fn hash_has_known_values() {
    // Zero is a fixed point of every mixing step.
    assert_eq!(hash([0, 0], 0), 0);
    for cell in [[1u32, 2u32], [31, 7], [u32::MAX, 12]] {
        let mut h = cell[0]
            .wrapping_mul(1_664_525)
            .wrapping_add(cell[1].wrapping_mul(1_013_904_223))
            .wrapping_add(17u32.wrapping_mul(2_246_822_519));
        h ^= h >> 16;
        h = h.wrapping_mul(2_246_822_519);
        h ^= h >> 13;
        h = h.wrapping_mul(3_266_489_917);
        h ^= h >> 16;
        assert_eq!(hash(cell, 17), h & 0x00ff_ffff);
        assert!(hash(cell, 17) <= CLOUD_HASH_MAX);
    }
}

#[test]
fn every_subdivision_is_a_closed_mesh() {
    let mut faces: Vec<[u16; 3]> = ICO_FACES.to_vec();
    let mut base = 12u16;
    for (vertices, triangles) in [(42u16, 80usize), (162, 320), (642, 1280)] {
        let (finer, next) = subdivide(&faces, base);
        assert_eq!(next, vertices);
        assert_eq!(finer.len(), triangles);
        let mut uses: HashMap<(u16, u16), u32> = HashMap::new();
        for f in &finer {
            for (a, b) in [(f[0], f[1]), (f[1], f[2]), (f[2], f[0])] {
                *uses.entry((a.min(b), a.max(b))).or_insert(0) += 1;
            }
        }
        assert!(uses.values().all(|&n| n == 2));
        assert_eq!(uses.len() * 2, triangles * 3);
        faces = finer;
        base = next;
    }
}
