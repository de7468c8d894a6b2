//! Static geometry of the effect passes: the plume volume and the trail
//! ribbons.
use crate::icosphere;
use vstd::prelude::*;

verus! {

/// Bytes of one plume vertex: position, axial and radial place.
pub const PLUME_VERT_BYTES: usize = 20;

/// Bytes of one ribbon vertex.
pub const TRAIL_VERT_BYTES: usize = 52;

/// Fixed ribbon budget of each emitter. A trail is packed newest first up to
/// this many quads, and drawn with the matching static index pattern.
pub const TRAIL_MAX_QUADS_PER_EMITTER: usize = 256;

/// Vertices of one emitter's ribbon: two per quad.
pub const TRAIL_VERTS_PER_EMITTER: usize = 512;

/// Emitters that leave a trail.
pub const TRAIL_EMITTERS: usize = 5;

/// Segments around the plume volume.
pub const CONE_SEGMENTS: usize = 32;

/// Two side triangles and two cap triangles per segment.
pub const CONE_INDEX_COUNT: u32 = 384;

// ---------------------------------------------------------------------------
// Plume volume
// ---------------------------------------------------------------------------

/// A vertex of the plume volume, by its place on it.
#[derive(Clone, Copy, Debug, PartialEq, Eq, Structural)]
pub struct PlumeVert {
    /// Segment around the axis. A full turn has `CONE_SEGMENTS` of them.
    pub segment: u16,
    /// 0 at the nozzle, 1 at the far end.
    pub axial: u8,
    /// 0 on the axis, 1 on the rim.
    pub radial: u8,
}

/// Vertex `i` of the plume volume: the near rim, the far rim, the near centre
/// and the far centre.
pub open spec fn plume_vert(i: int) -> PlumeVert {
    if i < CONE_SEGMENTS {
        PlumeVert { segment: i as u16, axial: 0, radial: 1 }
    } else if i < 2 * CONE_SEGMENTS {
        PlumeVert { segment: (i - CONE_SEGMENTS) as u16, axial: 1, radial: 1 }
    } else if i == 2 * CONE_SEGMENTS {
        PlumeVert { segment: 0, axial: 0, radial: 0 }
    } else {
        PlumeVert { segment: 0, axial: 1, radial: 0 }
    }
}

/// Segment after `i`, round the axis.
pub open spec fn next_segment(i: int) -> int {
    if i + 1 == CONE_SEGMENTS {
        0
    } else {
        i + 1
    }
}

/// Corner `e` of the four triangles of segment `i`: two on the side, one on
/// each cap.
pub open spec fn cone_corner(i: int, e: int) -> int {
    let near = i;
    let near_next = next_segment(i);
    let far = i + CONE_SEGMENTS;
    let far_next = next_segment(i) + CONE_SEGMENTS;
    if e == 6 {
        2 * CONE_SEGMENTS
    } else if e == 9 {
        2 * CONE_SEGMENTS + 1
    } else if e == 0 || e == 7 {
        near
    } else if e == 2 || e == 3 || e == 8 {
        near_next
    } else if e == 1 || e == 4 || e == 11 {
        far
    } else {
        far_next
    }
}

/// Index list of the plume volume.
pub open spec fn cone_indices() -> Seq<int> {
    Seq::new(CONE_INDEX_COUNT as nat, |j: int| cone_corner(j / 12, j % 12))
}

/// The half edge that runs opposite to half edge `j`.
pub open spec fn cone_twin(j: int) -> int {
    let i = j / 12;
    let e = j % 12;
    let after = next_segment(i);
    let before = if i == 0 {
        CONE_SEGMENTS - 1
    } else {
        i - 1
    };
    if e == 0 {
        12 * before + 5
    } else if e == 5 {
        12 * after
    } else if e == 1 {
        12 * i + 3
    } else if e == 3 {
        12 * i + 1
    } else if e == 2 {
        12 * i + 7
    } else if e == 7 {
        12 * i + 2
    } else if e == 4 {
        12 * i + 10
    } else if e == 10 {
        12 * i + 4
    } else if e == 6 {
        12 * before + 8
    } else if e == 8 {
        12 * after + 6
    } else if e == 9 {
        12 * after + 11
    } else {
        12 * before + 9
    }
}

/// The plume volume is closed and consistently wound: each half edge of a
/// triangle is run through in the other direction by another triangle. Its
/// indices name vertices of the volume.
pub proof fn cone_is_closed(j: int)
    requires
        0 <= j < CONE_INDEX_COUNT,
    ensures
        0 <= cone_indices()[j] < 2 * CONE_SEGMENTS + 2,
        0 <= cone_twin(j) < CONE_INDEX_COUNT,
        cone_twin(j) / 3 != j / 3,
        cone_indices()[cone_twin(j)] == cone_indices()[icosphere::next_corner(j)],
        cone_indices()[icosphere::next_corner(cone_twin(j))] == cone_indices()[j],
{
    let i = j / 12;
    let e = j % 12;
    let t = cone_twin(j);
    next_local_corner(j);
    assert(0 <= i < 32);
    if e == 0 || e == 6 || e == 11 {
        let before = if i == 0 { 31 } else { i - 1 };
        assert(t / 12 == before);
    } else if e == 5 || e == 8 || e == 9 {
        assert(t / 12 == next_segment(i));
    } else {
        assert(t / 12 == i);
    }
    assert(0 <= t < 384);
    next_local_corner(t);
    assert(j / 3 == 4 * i + e / 3);
    assert(t / 3 == 4 * (t / 12) + (t % 12) / 3);
}

/// No edge of the plume volume is shared by a third triangle: a half edge
/// between two vertices, in one direction, occurs once.
pub proof fn cone_half_edges_are_single(j: int, k: int)
    requires
        0 <= j < CONE_INDEX_COUNT,
        0 <= k < CONE_INDEX_COUNT,
        cone_indices()[j] == cone_indices()[k],
        cone_indices()[icosphere::next_corner(j)] == cone_indices()[icosphere::next_corner(k)],
    ensures
        j == k,
{
    next_local_corner(j);
    next_local_corner(k);
    assert(j == 12 * (j / 12) + j % 12 && k == 12 * (k / 12) + k % 12);
    assert(0 <= j / 12 < 32 && 0 <= k / 12 < 32);
}

proof fn next_local_corner(j: int)
    requires
        0 <= j,
    ensures
        icosphere::next_corner(j) / 12 == j / 12,
        icosphere::next_corner(j) % 12 == (if (j % 12) % 3 == 2 {
            j % 12 - 2
        } else {
            j % 12 + 1
        }),
{
    let e = j % 12;
    let q = j / 12;
    assert(j == 3 * (4 * q + e / 3) + e % 3);
    assert(j % 3 == e % 3);
    if e % 3 == 2 {
        assert(icosphere::next_corner(j) == 12 * q + (e - 2));
    } else {
        assert(icosphere::next_corner(j) == 12 * q + (e + 1));
    }
}

/// Vertices and indices of the closed volume round a plume. Its length and
/// radius are the caller's to apply.
pub fn build_plume_cone() -> (r: (Vec<PlumeVert>, Vec<u16>))
    ensures
        r.0.len() == 2 * CONE_SEGMENTS + 2,
        forall|i: int| 0 <= i < r.0.len() ==> #[trigger] r.0[i] == plume_vert(i),
        r.1.len() == CONE_INDEX_COUNT,
        forall|j: int| 0 <= j < r.1.len() ==> (#[trigger] r.1[j]) as int == cone_indices()[j],
{
    let mut verts: Vec<PlumeVert> = Vec::new();
    let mut i: u16 = 0;
    while i < 64
        invariant
            i <= 64,
            verts.len() == i,
            forall|k: int| 0 <= k < i ==> #[trigger] verts[k] == plume_vert(k),
        decreases 64 - i,
    {
        if i < 32 {
            verts.push(PlumeVert { segment: i, axial: 0, radial: 1 });
        } else {
            verts.push(PlumeVert { segment: i - 32, axial: 1, radial: 1 });
        }
        i += 1;
    }
    verts.push(PlumeVert { segment: 0, axial: 0, radial: 0 });
    verts.push(PlumeVert { segment: 0, axial: 1, radial: 0 });
    let mut idx: Vec<u16> = Vec::new();
    let mut s: u16 = 0;
    while s < 32
        invariant
            s <= 32,
            idx.len() == 12 * s,
            forall|j: int| 0 <= j < idx.len() ==> (#[trigger] idx[j]) as int == cone_indices()[j],
        decreases 32 - s,
    {
        let near: u16 = s;
        let near_next: u16 = if s + 1 == 32 {
            0
        } else {
            s + 1
        };
        let far: u16 = near + 32;
        let far_next: u16 = near_next + 32;
        let ghost before = idx@;
        idx.push(near);
        idx.push(far);
        idx.push(near_next);
        idx.push(near_next);
        idx.push(far);
        idx.push(far_next);
        idx.push(64);
        idx.push(near);
        idx.push(near_next);
        idx.push(65);
        idx.push(far_next);
        idx.push(far);
        proof {
            assert forall|j: int| 0 <= j < idx.len() implies (#[trigger] idx[j]) as int
                == cone_indices()[j] by {
                if j < before.len() {
                    assert(idx[j] == before[j]);
                } else {
                    assert(j / 12 == s && j % 12 == j - 12 * s);
                }
            }
        }
        s += 1;
    }
    (verts, idx)
}

// ---------------------------------------------------------------------------
// Trail ribbons
// ---------------------------------------------------------------------------

/// Indices of one emitter's ribbon.
pub open spec fn trail_run() -> int {
    6 * (TRAIL_MAX_QUADS_PER_EMITTER - 1)
}

/// Corner `c` of a ribbon quad: two triangles over four vertices.
pub open spec fn quad_corner(c: int) -> int {
    if c == 0 {
        0
    } else if c == 1 || c == 3 {
        1
    } else if c == 4 {
        3
    } else {
        2
    }
}

/// Index `i` of the trail pattern.
pub open spec fn trail_index(i: int) -> int {
    let emitter = i / trail_run();
    let quad = (i % trail_run()) / 6;
    TRAIL_VERTS_PER_EMITTER * emitter + 2 * quad + quad_corner(i % 6)
}

/// No ribbon reaches into another: the three corners of a triangle, and all
/// others of its emitter, lie in that emitter's fixed vertex range.
pub proof fn ribbons_stay_apart(i: int)
    requires
        0 <= i < TRAIL_EMITTERS * trail_run(),
    ensures
        0 <= trail_index(i) < TRAIL_EMITTERS * TRAIL_VERTS_PER_EMITTER,
        trail_index(i) / TRAIL_VERTS_PER_EMITTER as int == i / trail_run(),
        (3 * (i / 3)) / trail_run() == i / trail_run(),
{
    let q = i / 1530;
    let r = i % 1530;
    assert(trail_run() == 1530);
    assert(0 <= q < 5 && 0 <= r / 6 <= 254);
    assert(0 <= quad_corner(i % 6) <= 3);
    let offset = 2 * (r / 6) + quad_corner(i % 6);
    assert(0 <= offset < 512);
    assert(trail_index(i) == 512 * q + offset);
    assert(i == 3 * (510 * q + r / 3) + r % 3);
    assert(i / 3 == 510 * q + r / 3);
    assert(3 * (i / 3) == 1530 * q + (r - r % 3));
}

/// Independent triangle lists. Each emitter owns a fixed vertex range.
pub fn build_trail_indices() -> (idx: Vec<u16>)
    ensures
        idx.len() == TRAIL_EMITTERS * trail_run(),
        forall|i: int| 0 <= i < idx.len() ==> (#[trigger] idx[i]) as int == trail_index(i),
{
    let mut idx: Vec<u16> = Vec::new();
    let mut e: u16 = 0;
    while e < 5
        invariant
            e <= 5,
            idx.len() == e * 1530,
            forall|i: int| 0 <= i < idx.len() ==> (#[trigger] idx[i]) as int == trail_index(i),
        decreases 5 - e,
    {
        let base: u16 = e * 512;
        let mut k: u16 = 0;
        while k < 255
            invariant
                e < 5,
                base == e * 512,
                k <= 255,
                idx.len() == e * 1530 + k * 6,
                forall|i: int| 0 <= i < idx.len() ==> (#[trigger] idx[i]) as int == trail_index(i),
            decreases 255 - k,
        {
            let a: u16 = base + k * 2;
            let ghost before = idx@;
            idx.push(a);
            idx.push(a + 1);
            idx.push(a + 2);
            idx.push(a + 1);
            idx.push(a + 3);
            idx.push(a + 2);
            proof {
                assert forall|i: int| 0 <= i < idx.len() implies (#[trigger] idx[i]) as int
                    == trail_index(i) by {
                    if i < before.len() {
                        assert(idx[i] == before[i]);
                    } else {
                        let c = i - before.len();
                        assert(i == 1530 * e + 6 * k + c);
                        assert(i / 1530 == e && i % 1530 == 6 * k + c);
                        assert((6 * k + c) / 6 == k);
                        assert(i == 6 * (255 * e + k) + c);
                        assert(i % 6 == c);
                    }
                }
            }
            k += 1;
        }
        e += 1;
    }
    idx
}

/// Indices in one list that begin the two triangles of a quad.
pub open spec fn quad_start(emitter: int, quad: int) -> int {
    trail_run() * emitter + 6 * quad
}

/// The two triangles of a quad cover it between them. They share the diagonal
/// from its second to its third vertex and run along it in opposite
/// directions; the first vertex is the other corner of the one, and the fourth
/// that of the other. So no triangle is without area, both face one way, and
/// all four vertices are used.
pub proof fn quads_are_covered(emitter: int, quad: int)
    requires
        0 <= emitter < TRAIL_EMITTERS,
        0 <= quad < TRAIL_MAX_QUADS_PER_EMITTER - 1,
    ensures
        ({
            let i = quad_start(emitter, quad);
            let first = TRAIL_VERTS_PER_EMITTER * emitter + 2 * quad;
            let (a, b) = (
                (trail_index(i), trail_index(i + 1), trail_index(i + 2)),
                (trail_index(i + 3), trail_index(i + 4), trail_index(i + 5)),
            );
            &&& 0 <= i && i + 6 <= TRAIL_EMITTERS * trail_run()
            &&& a.0 != a.1 && a.1 != a.2 && a.0 != a.2
            &&& b.0 != b.1 && b.1 != b.2 && b.0 != b.2
            &&& runs_along(a, first + 1, first + 2) && runs_along(b, first + 2, first + 1)
            &&& runs_along(a, first, first + 1) && runs_along(a, first + 2, first)
            &&& runs_along(b, first + 1, first + 3) && runs_along(b, first + 3, first + 2)
        }),
{
    let run = trail_run();
    assert(run * emitter == 1530 * emitter) by (nonlinear_arith)
        requires
            run == 1530,
    ;
    corner_of_quad(emitter, quad, 0);
    corner_of_quad(emitter, quad, 1);
    corner_of_quad(emitter, quad, 2);
    corner_of_quad(emitter, quad, 3);
    corner_of_quad(emitter, quad, 4);
    corner_of_quad(emitter, quad, 5);
}

/// A triangle has a side from `u` to `v`.
pub open spec fn runs_along(t: (int, int, int), u: int, v: int) -> bool {
    t.0 == u && t.1 == v || t.1 == u && t.2 == v || t.2 == u && t.0 == v
}

proof fn corner_of_quad(emitter: int, quad: int, c: int)
    requires
        0 <= emitter < TRAIL_EMITTERS,
        0 <= quad < TRAIL_MAX_QUADS_PER_EMITTER - 1,
        0 <= c < 6,
    ensures
        trail_index(quad_start(emitter, quad) + c) == TRAIL_VERTS_PER_EMITTER * emitter + 2 * quad
            + quad_corner(c),
{
    let i = quad_start(emitter, quad) + c;
    let run = trail_run();
    assert(run * emitter == 1530 * emitter) by (nonlinear_arith)
        requires
            run == 1530,
    ;
    assert(i / 1530 == emitter && i % 1530 == 6 * quad + c);
    assert((6 * quad + c) / 6 == quad);
    assert(i == 6 * (255 * emitter + quad) + c);
    assert(i % 6 == c);
}

/// Neighbouring quads of a ribbon join without a gap: the last two vertices of
/// one are the first two of the next, and the two run along the edge between
/// them in opposite directions.
pub proof fn quads_join(emitter: int, quad: int)
    requires
        0 <= emitter < TRAIL_EMITTERS,
        0 <= quad < TRAIL_MAX_QUADS_PER_EMITTER - 2,
    ensures
        ({
            let (i, j) = (quad_start(emitter, quad), quad_start(emitter, quad + 1));
            let b = (trail_index(i + 3), trail_index(i + 4), trail_index(i + 5));
            let a = (trail_index(j), trail_index(j + 1), trail_index(j + 2));
            let shared = TRAIL_VERTS_PER_EMITTER * emitter + 2 * (quad + 1);
            runs_along(b, shared + 1, shared) && runs_along(a, shared, shared + 1)
        }),
{
    quads_are_covered(emitter, quad);
    quads_are_covered(emitter, quad + 1);
}

/// A triangle of the plume volume is part of its side, with all corners on the
/// two rims and some on each, or part of a cap, with one corner at the centre
/// and the others on the rim of the same end. No triangle is without area.
pub proof fn cone_triangles_lie_on_its_surface(t: int)
    requires
        0 <= t < CONE_INDEX_COUNT / 3,
    ensures
        ({
            let (i, j, k) = (
                cone_indices()[3 * t],
                cone_indices()[3 * t + 1],
                cone_indices()[3 * t + 2],
            );
            let (a, b, c) = (plume_vert(i), plume_vert(j), plume_vert(k));
            let centres = (1 - a.radial) + (1 - b.radial) + (1 - c.radial);
            &&& i != j && j != k && i != k
            &&& a.radial <= 1 && b.radial <= 1 && c.radial <= 1
            &&& a.axial <= 1 && b.axial <= 1 && c.axial <= 1
            &&& centres == 0 ==> 1 <= a.axial + b.axial + c.axial <= 2
            &&& centres != 0 ==> centres == 1 && a.axial == b.axial && b.axial == c.axial
            &&& centres == 0 <==> t % 4 < 2
        }),
{
    let s = t / 4;
    assert(t == 4 * s + t % 4);
    assert(0 <= s < 32);
    let e = 3 * (t % 4);
    assert(3 * t == 12 * s + e);
    assert((3 * t) / 12 == s && (3 * t) % 12 == e);
    assert((3 * t + 1) / 12 == s && (3 * t + 1) % 12 == e + 1);
    assert((3 * t + 2) / 12 == s && (3 * t + 2) % 12 == e + 2);
}

/// The vertices of the plume volume are different, and those of the far end
/// stand opposite those of the near one.
pub proof fn plume_vertices_are_different(i: int, j: int)
    requires
        0 <= i < 2 * CONE_SEGMENTS + 2,
        0 <= j < 2 * CONE_SEGMENTS + 2,
    ensures
        plume_vert(i) == plume_vert(j) ==> i == j,
        i < CONE_SEGMENTS ==> plume_vert(i).segment == i && plume_vert(i).radial == 1 && plume_vert(
            i,
        ).axial == 0,
        i < CONE_SEGMENTS ==> plume_vert(i + CONE_SEGMENTS) == (PlumeVert {
            axial: 1,
            ..plume_vert(i)
        }),
        plume_vert(i).radial == 0 <==> i >= 2 * CONE_SEGMENTS,
{
}

/// The side runs backwards along the near rim and forwards along the far one,
/// as seen from the nozzle, and its edges join places of one segment or of
/// neighbouring ones. This makes the outside of the volume its front.
pub proof fn cone_faces_outwards(s: int)
    requires
        0 <= s < CONE_SEGMENTS,
    ensures
        ({
            let c = cone_indices();
            let next = (s + 1) % (CONE_SEGMENTS as int);
            let n = CONE_SEGMENTS as int;
            let near = (c[12 * s], c[12 * s + 1], c[12 * s + 2]);
            let far = (c[12 * s + 3], c[12 * s + 4], c[12 * s + 5]);
            let near_cap = (c[12 * s + 6], c[12 * s + 7], c[12 * s + 8]);
            let far_cap = (c[12 * s + 9], c[12 * s + 10], c[12 * s + 11]);
            &&& runs_along(near, next, s) && runs_along(near, s, n + s)
            &&& runs_along(far, n + s, n + next) && runs_along(far, n + next, next)
            &&& runs_along(near_cap, s, next) && runs_along(near_cap, next, 2 * n)
            &&& runs_along(far_cap, n + next, n + s) && runs_along(far_cap, n + s, 2 * n + 1)
        }),
{
    assert forall|e: int| 0 <= e < 12 implies (12 * s + e) / 12 == s && #[trigger] ((12 * s + e) % 12)
        == e by {}
    assert(next_segment(s) == (s + 1) % 32);
    let c = cone_indices();
    assert(c[12 * s] == cone_corner(s, 0));
    assert(c[12 * s + 1] == cone_corner(s, 1));
    assert(c[12 * s + 2] == cone_corner(s, 2));
    assert(c[12 * s + 3] == cone_corner(s, 3));
    assert(c[12 * s + 4] == cone_corner(s, 4));
    assert(c[12 * s + 5] == cone_corner(s, 5));
    assert(c[12 * s + 6] == cone_corner(s, 6));
    assert(c[12 * s + 7] == cone_corner(s, 7));
    assert(c[12 * s + 8] == cone_corner(s, 8));
    assert(c[12 * s + 9] == cone_corner(s, 9));
    assert(c[12 * s + 10] == cone_corner(s, 10));
    assert(c[12 * s + 11] == cone_corner(s, 11));
}

} // verus!
