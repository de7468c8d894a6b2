use explora::airframe::{
    build_airframe, sail_rows, AIRFRAME_PARTS, AIRFRAME_VERTS, VERTEX_LIMIT,
};
use explora::mesh::{merge, MeshPart, VertexBits};
use explora::plane::{MatId, Node};
use explora::polygon::{ear_clip, point_in_tri, signed_area, Ear, Point, OUTLINE_UNITS};
use explora::surface::{fin_outline, fin_plate, push_shape, push_sheet, Shape, FIN_POINTS};

fn p(x: i64, y: i64) -> Point {
    Point { x, y }
}

fn ear(a: u32, b: u32, c: u32) -> Ear {
    Ear { a, b, c }
}

fn doubled(poly: &[Point], e: &Ear) -> i64 {
    let (a, b, c) = (poly[e.a as usize], poly[e.b as usize], poly[e.c as usize]);
    (b.x - a.x) * (c.y - a.y) - (b.y - a.y) * (c.x - a.x)
}

#[test]
fn squares_are_cut_in_two() {
    let square = vec![p(0, 0), p(10, 0), p(10, 10), p(0, 10)];
    assert_eq!(signed_area(&square), 200);
    assert_eq!(ear_clip(&square), vec![ear(3, 0, 1), ear(1, 2, 3)]);
}

#[test]
fn convex_outlines_are_cut_whole() {
    let hexagon = vec![p(0, 0), p(20, 0), p(30, 17), p(20, 34), p(0, 34), p(-10, 17)];
    let ears = ear_clip(&hexagon);
    assert_eq!(ears.len(), 4);
    assert_eq!(ears[0], ear(5, 0, 1));
    assert_eq!(ears.iter().map(|e| doubled(&hexagon, e)).sum::<i64>(), signed_area(&hexagon));
}

#[test]
fn simple_outlines_are_cut_whole() {
    // A comb, and a spiral: neither is convex, and few corners see the others.
    let comb = vec![
        p(0, 0), p(101, 3), p(90, 52), p(80, 7), p(70, 54), p(61, 8), p(52, 57), p(41, 9), p(30, 55),
        p(22, 11), p(11, 58),
    ];
    let spiral = vec![
        p(0, 0), p(100, 2), p(103, 99), p(11, 101), p(9, 30), p(71, 28), p(69, 72), p(33, 71),
        p(35, 60), p(60, 62), p(61, 41), p(19, 42), p(21, 88), p(91, 90), p(88, 13), p(1, 12),
    ];
    for outline in [comb, spiral] {
        assert!(signed_area(&outline) > 0);
        let ears = ear_clip(&outline);
        assert_eq!(ears.len(), outline.len() - 2);
        assert!(ears.iter().all(|e| doubled(&outline, e) > 0));
        assert_eq!(ears.iter().map(|e| doubled(&outline, e)).sum::<i64>(), signed_area(&outline));
    }
}

/// Twice the area from two corners to a place at fourths of the unit, times four.
fn left_of(a: Point, b: Point, x: i64, y: i64) -> i64 {
    (b.x - a.x) * (y - 4 * a.y) - (b.y - a.y) * (x - 4 * a.x)
}

#[test]
fn triangles_of_simple_outlines_do_not_overlap() {
    let star = vec![
        p(0, 0), p(9, 5), p(20, 1), p(15, 9), p(21, 19), p(10, 14), p(1, 21), p(6, 11),
    ];
    let hook = vec![p(0, 0), p(22, 1), p(23, 20), p(13, 21), p(14, 8), p(5, 9), p(6, 19), p(-1, 18)];
    for outline in [star, hook] {
        let ears = ear_clip(&outline);
        assert_eq!(ears.len(), outline.len() - 2);
        for e in &ears {
            assert!(e.a != e.b && e.b != e.c && e.a != e.c);
            assert!(doubled(&outline, e) > 0);
        }
        let mut held = 0;
        for x in -8..100 {
            for y in -8..100 {
                let within = ears
                    .iter()
                    .filter(|e| {
                        let (a, b, c) =
                            (outline[e.a as usize], outline[e.b as usize], outline[e.c as usize]);
                        left_of(a, b, x, y) > 0 && left_of(b, c, x, y) > 0 && left_of(c, a, x, y) > 0
                    })
                    .count();
                assert!(within <= 1);
                held += within;
            }
        }
        assert!(held > 1000);
    }
}

#[test]
fn notches_are_not_bridged() {
    // An arrowhead: the notch at (5, 4) keeps the ear at (0, 0) from being
    // cut before its neighbour.
    let arrow = vec![p(0, 0), p(10, 0), p(5, 20), p(5, 4)];
    let ears = ear_clip(&arrow);
    assert_eq!(ears.len(), 2);
    assert_eq!(ears.iter().map(|e| doubled(&arrow, e)).sum::<i64>(), signed_area(&arrow));
    assert!(ears.iter().all(|e| doubled(&arrow, e) > 0));
}

#[test]
fn what_cannot_be_cut_is_left() {
    // Clockwise corners turn the wrong way.
    let wrong = vec![p(0, 10), p(10, 10), p(10, 0), p(0, 0)];
    assert_eq!(signed_area(&wrong), -200);
    assert!(ear_clip(&wrong).is_empty());
    assert!(ear_clip(&vec![p(0, 0), p(1, 1)]).is_empty());
    assert_eq!(ear_clip(&vec![p(0, 0), p(9, 0), p(0, 9)]), vec![ear(0, 1, 2)]);
    assert_eq!(signed_area(&vec![]), 0);
}

#[test]
fn points_lie_within_or_not() {
    let (a, b, c) = (p(0, 0), p(30, 0), p(0, 30));
    assert!(point_in_tri(p(5, 5), a, b, c));
    assert!(point_in_tri(p(5, 5), a, c, b));
    assert!(!point_in_tri(p(15, 15), a, b, c));
    assert!(!point_in_tri(p(0, 5), a, b, c));
    assert!(!point_in_tri(p(40, 40), a, b, c));
    assert!(!point_in_tri(p(5, 0), a, b, p(60, 0)));
}

/// The fin outline in single precision.
fn sampled() -> Vec<[f32; 2]> {
    let cubic = |q: [[f32; 2]; 4]| -> Vec<[f32; 2]> {
        (0..=12)
            .map(|i| {
                let t = i as f32 / 12.0;
                let u = 1.0 - t;
                [0, 1].map(|k: usize| {
                    u * u * u * q[0][k]
                        + 3.0 * u * u * t * q[1][k]
                        + 3.0 * u * t * t * q[2][k]
                        + t * t * t * q[3][k]
                })
            })
            .collect()
    };
    let mut pts = cubic([[0.0, -0.6], [0.7, -0.6], [1.45, 0.25], [1.75, 0.8]]);
    pts.extend(cubic([[1.75, 0.8], [1.3, 0.85], [0.55, 0.6], [0.0, 0.55]]).into_iter().skip(1));
    pts
}

#[test]
fn the_fin_follows_its_curves() {
    let outline = fin_outline();
    assert_eq!(outline.len(), FIN_POINTS as usize);
    for (q, f) in outline.iter().zip(sampled()) {
        assert!((q.x as f32 / OUTLINE_UNITS as f32 - f[0]).abs() < 1e-5);
        assert!((q.y as f32 / OUTLINE_UNITS as f32 - f[1]).abs() < 1e-5);
    }
    assert_eq!(outline[12], p(60480, 27648));
}

#[test]
fn fins_are_whole_on_both_sides() {
    for mirrored in [false, true] {
        let plate = fin_plate(mirrored);
        assert!(signed_area(&plate) > 0);
        let ears = ear_clip(&plate);
        assert_eq!(ears.len(), 23);
        assert_eq!(ears.iter().map(|e| doubled(&plate, e)).sum::<i64>(), signed_area(&plate));
        let mut idx = Vec::new();
        push_shape(&mut idx, 100, Shape::Plate { mirrored });
        assert_eq!(idx.len(), 6 * 23 + 6 * 25);
        assert!(idx.iter().all(|&i| (100..150).contains(&i)));
        // Every edge is gone along once in each direction: the plate is closed.
        let edges: Vec<(u32, u32)> = idx
            .chunks_exact(3)
            .flat_map(|t| [(t[0], t[1]), (t[1], t[2]), (t[2], t[0])])
            .collect();
        for &(a, b) in &edges {
            assert_eq!(edges.iter().filter(|&&e| e == (a, b)).count(), 1);
            assert_eq!(edges.iter().filter(|&&e| e == (b, a)).count(), 1);
        }
    }
}

#[test]
fn sheets_have_a_side() {
    let mut grid = vec![99];
    push_sheet(&mut grid, 10, 1, 2, false);
    assert_eq!(grid, vec![99, 10, 14, 11, 10, 13, 14, 11, 15, 12, 11, 14, 15]);
    let mut rings = Vec::new();
    push_sheet(&mut rings, 0, 2, 1, true);
    assert_eq!(rings, vec![0, 3, 2, 0, 1, 3, 2, 5, 4, 2, 3, 5]);
    let mut none = Vec::new();
    push_sheet(&mut none, 0, 4, 0, true);
    assert!(none.is_empty());
    let mut quad = Vec::new();
    push_shape(&mut quad, 4, Shape::Quad);
    assert_eq!(quad, vec![4, 6, 5, 4, 7, 6]);
}

#[test]
fn sail_rows_agree_with_single_precision() {
    for (start, end) in [(0.0f32, 0.89f32), (0.0, 0.42), (0.0, 1.0), (0.89, 1.0), (0.425, 0.575)] {
        let rows = ((end - start) * 36.0).ceil().max(4.0) as u32;
        let place = |v: f32| (v * 1000.0).round() as u32;
        assert_eq!(sail_rows(place(start), place(end)), rows);
    }
    for i in 0..3 {
        let start = 0.425 + i as f32 * 0.155;
        let end = start + 0.15;
        assert_eq!(((end - start) * 36.0).ceil().max(4.0) as u32, sail_rows(425, 575));
    }
}

#[test]
fn the_aircraft_can_be_merged() {
    let parts = build_airframe();
    assert_eq!(parts.len(), AIRFRAME_PARTS);
    assert_eq!(parts.iter().map(|q| q.verts).sum::<u32>(), AIRFRAME_VERTS);
    assert!(AIRFRAME_VERTS <= VERTEX_LIMIT);
    for part in &parts {
        assert_eq!(part.idx.len() % 3, 0);
        assert!(part.idx.iter().all(|&i| i < part.verts));
    }
    assert_eq!(parts.iter().filter(|q| q.mat == MatId::Glass).count(), 1);
    assert_eq!(parts.iter().filter(|q| matches!(q.node, Node::Petal(_))).count(), 10);
    assert_eq!(parts.iter().filter(|q| matches!(q.node, Node::Flap(_))).count(), 6);
    let blank = VertexBits { pos: [0; 3], oct: [0; 2], uv: [0; 2], flex: 0 };
    let meshes: Vec<MeshPart> = parts
        .iter()
        .map(|q| MeshPart {
            node: q.node,
            mat: q.mat,
            verts: vec![blank; q.verts as usize],
            idx: q.idx.clone(),
        })
        .collect();
    let merged = merge(&meshes);
    assert_eq!(merged.stream.len(), 28 * AIRFRAME_VERTS as usize);
    assert_eq!(merged.glass_count, 6 * 14 * 24);
    // Hull, canopy, wings, flaps, rotor, petals and fins all cast shadows.
    assert_eq!(merged.casters.len(), 23);
}
