//! The procedural mesh cloud field, shared with the cloud shaders.
//!
//! The GPU decodes each cell from the instance index and each puff corner from
//! the vertex index. A static index buffer shares identical corners without
//! changing the procedural surface or the triangle order.
use crate::icosphere;
use crate::icosphere::{subdivide, ICO_FACES};
use crate::noise;
use vstd::prelude::*;

verus! {

/// Placement pitch of the hash grid in metres.
pub const CLOUD_CELL: u32 = 2048;

/// Instance draw radius in metres. Far clouds are the first thing that aerial
/// haze swallows, so the grid stops before they vanish.
pub const CLOUD_DRAW_RADIUS: u32 = 20_000;

/// Grid side drawn around the camera, in cells.
pub const CLOUD_GRID: u32 = 19;

/// Cells in the drawn grid.
pub const CLOUD_CELLS: u32 = CLOUD_GRID * CLOUD_GRID;

/// Icosphere puffs per cloud.
pub const CLOUD_PUFFS: u32 = 8;

/// Triangles per puff: an icosphere with three subdivisions (642 vertices,
/// 1280 faces). Keeps silhouettes and shading round at close range.
pub const CLOUD_PUFF_TRIS: u32 = 1280;

/// Non-indexed corners per puff.
pub const CLOUD_CORNERS: u32 = CLOUD_PUFF_TRIS * 3;

/// Corners submitted per cloud.
pub const CLOUD_VERTS_PER_CLOUD: u32 = CLOUD_PUFFS * CLOUD_CORNERS;

/// Maximum corners of the full-quality cloud draw call.
#[verifier::nonlinear]
pub const CLOUD_VERTEX_COUNT: u32 = CLOUD_CELLS * CLOUD_VERTS_PER_CLOUD;

/// Placement cells per world period (the field tiles seamlessly).
pub const CLOUD_PERIOD_CELLS: u32 = 32;

/// Largest value of `hash`. Dividing by it gives a number from zero to one.
pub const CLOUD_HASH_MAX: u32 = 0x00ff_ffff;

/// First hash value that no longer grows a cumulus cluster: 38 percent of
/// the cells have one.
pub const CLOUD_CUMULUS_PRESENCE: u32 = 6_375_341;

/// First hash value that no longer grows a high streak: 10 percent of the
/// otherwise empty cells have one.
pub const CLOUD_STREAK_PRESENCE: u32 = 1_677_722;

// ---------------------------------------------------------------------------
// Puff mesh
// ---------------------------------------------------------------------------

/// Corner sequence of one puff.
pub open spec fn puff() -> Seq<int> {
    icosphere::icosphere(3).0
}

/// `i` is the first corner with vertex `v`.
pub open spec fn is_first_corner(c: Seq<int>, v: int, i: int) -> bool {
    &&& 0 <= i < c.len()
    &&& c[i] == v
    &&& forall|k: int| 0 <= k < i ==> #[trigger] c[k] != v
}

/// The first corner with vertex `v`.
pub open spec fn first_corner(c: Seq<int>, v: int) -> int {
    choose|i: int| is_first_corner(c, v, i)
}

/// Index buffer of one cloud: corner `i` is drawn through the first corner of
/// its puff that reaches the same vertex.
pub open spec fn cloud_indices() -> Seq<int> {
    Seq::new(
        CLOUD_VERTS_PER_CLOUD as nat,
        |i: int|
            (i / CLOUD_CORNERS as int) * CLOUD_CORNERS + first_corner(
                puff(),
                puff()[i % CLOUD_CORNERS as int],
            ),
    )
}

proof fn first_corner_exists(c: Seq<int>, j: int)
    requires
        0 <= j < c.len(),
    ensures
        is_first_corner(c, c[j], first_corner(c, c[j])),
        first_corner(c, c[j]) <= j,
    decreases j,
{
    if exists|k: int| 0 <= k < j && #[trigger] c[k] == c[j] {
        let k = choose|k: int| 0 <= k < j && #[trigger] c[k] == c[j];
        first_corner_exists(c, k);
    } else {
        assert(is_first_corner(c, c[j], j));
        let i = first_corner(c, c[j]);
        assert(is_first_corner(c, c[j], i));
        if i > j {
            assert(c[j] != c[j]);
        }
    }
}

proof fn first_corner_unique(c: Seq<int>, v: int, i: int)
    requires
        is_first_corner(c, v, i),
    ensures
        first_corner(c, v) == i,
{
    let f = first_corner(c, v);
    assert(is_first_corner(c, v, f));
}

/// Indexed drawing keeps every triangle: each index stays in the puff of the
/// corner it stands for, and reaches the same vertex.
pub proof fn indices_keep_every_triangle(i: int)
    requires
        0 <= i < CLOUD_VERTS_PER_CLOUD,
    ensures
        ({
            let n = CLOUD_CORNERS as int;
            let index = cloud_indices()[i];
            &&& index / n == i / n
            &&& index <= i
            &&& puff()[index % n] == puff()[i % n]
        }),
{
    icosphere::icosphere_is_closed(3);
    let n = CLOUD_CORNERS as int;
    first_corner_exists(puff(), i % n);
    let f = first_corner(puff(), puff()[i % n]);
    assert(cloud_indices()[i] == (i / n) * n + f);
    assert((i / n) * n + i % n == i);
    assert(((i / n) * n + f) / n == i / n && ((i / n) * n + f) % n == f);
}

/// Each puff of the indexed draw evaluates 642 vertices, though it has 3840
/// corners.
pub proof fn each_puff_shares_its_vertices(p: int)
    requires
        0 <= p < CLOUD_PUFFS,
    ensures
        Set::new(
            |index: int|
                exists|i: int|
                    0 <= i < CLOUD_VERTS_PER_CLOUD && i / CLOUD_CORNERS as int == p
                        && #[trigger] cloud_indices()[i] == index,
        ).len() == 642,
{
    let n = CLOUD_CORNERS as int;
    let c = puff();
    icosphere::icosphere_is_closed(3);
    let used = Set::new(
        |index: int|
            exists|i: int|
                0 <= i < CLOUD_VERTS_PER_CLOUD && i / n == p && #[trigger] cloud_indices()[i]
                    == index,
    );
    let vertices = vstd::set_lib::set_int_range(0, 642);
    let f = |v: int| p * n + first_corner(c, v);
    assert forall|v: int| vertices.contains(v) implies is_first_corner(
        c,
        v,
        #[trigger] first_corner(c, v),
    ) by {
        assert(c.contains(v));
        let j = choose|j: int| 0 <= j < c.len() && c[j] == v;
        first_corner_exists(c, j);
    }
    assert(vertices.map(f) =~= used) by {
        assert forall|index: int| vertices.map(f).contains(index) implies used.contains(index) by {
            let v = choose|v: int| vertices.contains(v) && f(v) == index;
            let j = first_corner(c, v);
            assert(is_first_corner(c, v, j));
            let i = p * n + j;
            assert(i / n == p && i % n == j);
            assert(cloud_indices()[i] == index);
        }
        assert forall|index: int| used.contains(index) implies vertices.map(f).contains(index) by {
            let i = choose|i: int|
                0 <= i < CLOUD_VERTS_PER_CLOUD && i / n == p && #[trigger] cloud_indices()[i]
                    == index;
            let v = c[i % n];
            assert(vertices.contains(v));
            assert(f(v) == index);
        }
    }
    assert(vstd::relations::injective_on(f, vertices)) by {
        assert forall|v: int, w: int|
            vertices.contains(v) && vertices.contains(w) && #[trigger] f(v) == #[trigger] f(
                w,
            ) implies v == w by {
            assert(is_first_corner(c, v, first_corner(c, v)));
            assert(is_first_corner(c, w, first_corner(c, w)));
        }
    }
    vstd::set_lib::lemma_int_range(0, 642);
    vstd::set_lib::lemma_map_size(vertices, used, f);
}

/// Faces of one puff: the icosahedron, subdivided three times.
pub fn puff_topology() -> (faces: Vec<[u16; 3]>)
    ensures
        faces.len() == CLOUD_PUFF_TRIS,
        icosphere::corners(faces@) == puff(),
{
    let mut faces: Vec<[u16; 3]> = Vec::new();
    let mut f: usize = 0;
    while f < 20
        invariant
            f <= 20,
            faces@ == ICO_FACES@.take(f as int),
        decreases 20 - f,
    {
        faces.push(ICO_FACES[f]);
        f += 1;
    }
    assert(faces@ =~= ICO_FACES@);
    let mut base: u16 = 12;
    let mut level: usize = 0;
    proof {
        reveal_with_fuel(icosphere::icosphere, 2);
        icosphere::icosphere_is_closed(0);
    }
    while level < 3
        invariant
            level <= 3,
            icosphere::corners(faces@) == icosphere::icosphere(level as nat).0,
            base == icosphere::icosphere(level as nat).1,
        decreases 3 - level,
    {
        proof {
            icosphere::icosphere_is_closed(level as nat);
            assert(icosphere::corners(faces@).len() == 3 * faces.len());
        }
        let (next_faces, next_base) = subdivide(&faces, base);
        faces = next_faces;
        base = next_base;
        level += 1;
    }
    proof {
        icosphere::icosphere_is_closed(3);
        assert(icosphere::corners(faces@).len() == 3 * faces.len());
    }
    faces
}

/// Immutable indices for one cloud instance. Keeps all 10,240 triangles and
/// their ordering, but shares the 642 vertices of each puff instead of
/// evaluating its expensive procedural vertex shader for all 3,840 corners.
/// Index values address the corner ids of the whole list, not compacted
/// positions, so the shader's subdivision arithmetic is retained.
pub fn indices() -> (r: Vec<u16>)
    ensures
        r.len() == CLOUD_VERTS_PER_CLOUD,
        forall|i: int| 0 <= i < r.len() ==> (#[trigger] r[i]) as int == cloud_indices()[i],
{
    let faces: Vec<[u16; 3]> = puff_topology();
    let ghost c = puff();
    proof {
        icosphere::icosphere_is_closed(3);
    }
    let mut first: Vec<u16> = Vec::new();
    let mut v: usize = 0;
    while v < 642
        invariant
            v == first.len(),
            v <= 642,
            forall|k: int| 0 <= k < v ==> first[k] == u16::MAX,
        decreases 642 - v,
    {
        first.push(u16::MAX);
        v += 1;
    }
    let mut shared: Vec<u16> = Vec::new();
    let mut corner: usize = 0;
    while corner < 3840
        invariant
            c == icosphere::corners(faces@),
            c == puff(),
            c.len() == 3840,
            faces.len() == 1280,
            forall|j: int| 0 <= j < c.len() ==> 0 <= #[trigger] c[j] < 642,
            corner == shared.len(),
            corner <= 3840,
            first.len() == 642,
            forall|k: int|
                0 <= k < 642 ==> (#[trigger] first[k] == u16::MAX || (first[k] < corner
                    && is_first_corner(c, k, first[k] as int))),
            forall|k: int, j: int|
                0 <= k < 642 && 0 <= j < corner && #[trigger] c[j] == k ==> #[trigger] first[k]
                    != u16::MAX,
            forall|j: int|
                0 <= j < corner ==> (#[trigger] shared[j]) as int == first_corner(c, c[j]),
            forall|j: int| 0 <= j < corner ==> (#[trigger] shared[j]) < 3840,
        decreases 3840 - corner,
    {
        let vertex: usize = faces[corner / 3][corner % 3] as usize;
        assert(vertex == c[corner as int]);
        if first[vertex] == u16::MAX {
            assert(is_first_corner(c, vertex as int, corner as int));
            first[vertex] = corner as u16;
        }
        let id: u16 = first[vertex];
        proof {
            first_corner_unique(c, vertex as int, id as int);
        }
        shared.push(id);
        corner += 1;
    }
    let mut out: Vec<u16> = Vec::new();
    let mut p: usize = 0;
    while p < 8
        invariant
            c == puff(),
            c.len() == 3840,
            shared.len() == 3840,
            forall|j: int|
                0 <= j < 3840 ==> (#[trigger] shared[j]) as int == first_corner(c, c[j]),
            forall|j: int| 0 <= j < 3840 ==> (#[trigger] shared[j]) < 3840,
            p <= 8,
            out.len() == p * 3840,
            forall|i: int| 0 <= i < out.len() ==> (#[trigger] out[i]) as int == cloud_indices()[i],
        decreases 8 - p,
    {
        let mut k: usize = 0;
        while k < 3840
            invariant
                c == puff(),
                c.len() == 3840,
                shared.len() == 3840,
                forall|j: int|
                    0 <= j < 3840 ==> (#[trigger] shared[j]) as int == first_corner(c, c[j]),
                forall|j: int| 0 <= j < 3840 ==> (#[trigger] shared[j]) < 3840,
                p < 8,
                k <= 3840,
                out.len() == p * 3840 + k,
                forall|i: int|
                    0 <= i < out.len() ==> (#[trigger] out[i]) as int == cloud_indices()[i],
            decreases 3840 - k,
        {
            let ghost i = p * 3840 + k;
            assert(i / 3840 == p && i % 3840 == k);
            out.push(shared[k] + (p as u16) * 3840);
            k += 1;
        }
        p += 1;
    }
    out
}

// ---------------------------------------------------------------------------
// Placement
// ---------------------------------------------------------------------------

/// The mixer behind the cloud placement.
pub open spec fn cloud_hash(cell: [u32; 2], seed: u32) -> u32 {
    let a = cell[0].wrapping_mul(1_664_525).wrapping_add(
        cell[1].wrapping_mul(1_013_904_223),
    ).wrapping_add(seed.wrapping_mul(2_246_822_519));
    let b = (a ^ (a >> 16)).wrapping_mul(2_246_822_519);
    let c = (b ^ (b >> 13)).wrapping_mul(3_266_489_917);
    (c ^ (c >> 16)) & 0x00ff_ffff
}

/// Placement hash of a cell, from zero to `CLOUD_HASH_MAX`. Wrapping unsigned
/// arithmetic matches the shader exactly.
pub fn hash(cell: [u32; 2], seed: u32) -> (h: u32)
    ensures
        h == cloud_hash(cell, seed),
        h <= CLOUD_HASH_MAX,
{
    let a: u32 = cell[0].wrapping_mul(1_664_525).wrapping_add(
        cell[1].wrapping_mul(1_013_904_223),
    ).wrapping_add(seed.wrapping_mul(2_246_822_519));
    let b: u32 = (a ^ (a >> 16)).wrapping_mul(2_246_822_519);
    let c: u32 = (b ^ (b >> 13)).wrapping_mul(3_266_489_917);
    let h: u32 = c ^ (c >> 16);
    assert(h & 0x00ff_ffff <= 0x00ff_ffff) by (bit_vector);
    h & 0x00ff_ffff
}

/// What grows in a cell: 0 nothing, 1 cumulus, 2 a high streak.
pub open spec fn cell_family(cell: [u32; 2]) -> u32 {
    if cloud_hash(cell, 17) < CLOUD_CUMULUS_PRESENCE {
        1
    } else if cloud_hash(cell, 91) < CLOUD_STREAK_PRESENCE {
        2
    } else {
        0
    }
}

/// Cloud family of a cell: 0 empty, 1 cumulus, 2 high streak.
pub fn family(cell: [u32; 2]) -> (r: u32)
    ensures
        r == cell_family(cell),
{
    if hash(cell, 17) < CLOUD_CUMULUS_PRESENCE {
        1
    } else if hash(cell, 91) < CLOUD_STREAK_PRESENCE {
        2
    } else {
        0
    }
}

/// A product with an odd number can be told from its factor.
proof fn product_tells(a: u32, b: u32, c: int, inverse: int, k: int)
    requires
        c * inverse == 1 + k * 0x1_0000_0000,
        (a * c) % 0x1_0000_0000 == (b * c) % 0x1_0000_0000,
    ensures
        a == b,
{
    noise::undone(a as int, c, inverse, k);
    noise::undone(b as int, c, inverse, k);
}

/// All thirty two bits of a cell's hash, of which placement uses the lower
/// ones.
pub open spec fn whole_hash(cell: [u32; 2], seed: u32) -> u32 {
    let a = ((cell[0] * 1_664_525 + cell[1] * 1_013_904_223 + seed * 2_246_822_519)
        % 0x1_0000_0000) as u32;
    let b = (((a ^ (a >> 16)) * 2_246_822_519) % 0x1_0000_0000) as u32;
    let c = (((b ^ (b >> 13)) * 3_266_489_917) % 0x1_0000_0000) as u32;
    c ^ (c >> 16)
}

/// Placement goes by the lower twenty four bits of a hash that loses nothing:
/// two cells of one row or column never share the whole hash, nor does one
/// cell under two seeds.
pub proof fn cells_are_hashed_apart(cell: [u32; 2], there: [u32; 2], seed: u32, other: u32)
    requires
        there[0] == cell[0] && seed == other || there[1] == cell[1] && seed == other || there[0]
            == cell[0] && there[1] == cell[1],
    ensures
        cloud_hash(cell, seed) as int == whole_hash(cell, seed) as int % 0x100_0000,
        whole_hash(cell, seed) == whole_hash(there, other) ==> cell[0] == there[0] && cell[1]
            == there[1] && seed == other,
{
    let h = whole_hash(cell, seed);
    sums_agree(cell, seed);
    assert(h & 0x00ff_ffff == h % 0x100_0000) by (bit_vector);
    if h == whole_hash(there, other) {
        let sum = |q: [u32; 2], s: u32|
            q[0] * 1_664_525 + q[1] * 1_013_904_223 + s * 2_246_822_519;
        let (x, y) = (sum(cell, seed), sum(there, other));
        let m = 0x1_0000_0000int;
        let (a, d) = ((x % m) as u32, (y % m) as u32);
        let (ax, dx) = (a ^ (a >> 16), d ^ (d >> 16));
        let (b, e) = (((ax * 2_246_822_519) % m) as u32, ((dx * 2_246_822_519) % m) as u32);
        let (bx, ex) = (b ^ (b >> 13), e ^ (e >> 13));
        let (c, f) = (((bx * 3_266_489_917) % m) as u32, ((ex * 3_266_489_917) % m) as u32);
        assert(c == f) by (bit_vector)
            requires
                c ^ (c >> 16) == f ^ (f >> 16),
        ;
        product_tells(bx, ex, 3_266_489_917, 2828982549, 2151551417);
        assert(b == e) by (bit_vector)
            requires
                b ^ (b >> 13) == e ^ (e >> 13),
        ;
        product_tells(ax, dx, 2_246_822_519, 3066638151, 1604247758);
        assert(a == d) by (bit_vector)
            requires
                a ^ (a >> 16) == d ^ (d >> 16),
        ;
        assert((x - y) % m == 0);
        if there[0] == cell[0] && there[1] == cell[1] {
            same_product(seed, other, 2_246_822_519);
            product_tells(seed, other, 2_246_822_519, 3066638151, 1604247758);
        } else if there[0] == cell[0] {
            same_product(cell[1], there[1], 1_013_904_223);
            product_tells(cell[1], there[1], 1_013_904_223, 149956767, 35399990);
        } else {
            same_product(cell[0], there[0], 1_664_525);
            product_tells(cell[0], there[0], 1_664_525, 4276115653, 1657219);
        }
    }
}

proof fn same_product(p: u32, q: u32, c: int)
    requires
        (p * c - q * c) % 0x1_0000_0000 == 0,
    ensures
        (p * c) % 0x1_0000_0000 == (q * c) % 0x1_0000_0000,
{
}

proof fn sums_agree(cell: [u32; 2], seed: u32)
    ensures
        ({
            let a = cell[0].wrapping_mul(1_664_525).wrapping_add(
                cell[1].wrapping_mul(1_013_904_223),
            ).wrapping_add(seed.wrapping_mul(2_246_822_519));
            a == ((cell[0] * 1_664_525 + cell[1] * 1_013_904_223 + seed * 2_246_822_519)
                % 0x1_0000_0000) as u32
        }),
{
    let m = 0x1_0000_0000int;
    let (x, y, z) = (cell[0], cell[1], seed);
    let (p, q, r) = (x * 1_664_525, y * 1_013_904_223, z * 2_246_822_519);
    let (a, b, c) = (
        x.wrapping_mul(1_664_525),
        y.wrapping_mul(1_013_904_223),
        z.wrapping_mul(2_246_822_519),
    );
    assert(a == p % m && b == q % m && c == r % m);
    wrapped_sum(a, b);
    wrapped_sum(a.wrapping_add(b), c);
    vstd::arithmetic::div_mod::lemma_add_mod_noop(p, q, m);
    vstd::arithmetic::div_mod::lemma_add_mod_noop(p + q, r, m);
}

proof fn wrapped_sum(a: u32, b: u32)
    ensures
        a.wrapping_add(b) as int == (a + b) % 0x1_0000_0000,
{
}

/// Thirty eight cells in a hundred of the hash's range grow a cumulus, and one
/// in ten of the others' range a streak. A cumulus leaves no room for a streak.
/// The two go by the hashes of seeds 17 and 91.
pub proof fn families_have_their_shares(cell: [u32; 2])
    ensures
        ({
            let (f, cumulus, streak) = (
                cell_family(cell),
                cloud_hash(cell, 17) as int,
                cloud_hash(cell, 91) as int,
            );
            &&& f <= 2
            &&& f == 1 ==> 100 * cumulus < 38 * CLOUD_HASH_MAX
            &&& 100 * (cumulus + 1) < 38 * CLOUD_HASH_MAX ==> f == 1
            &&& f == 2 ==> 10 * streak < CLOUD_HASH_MAX
            &&& f != 1 && 10 * streak < CLOUD_HASH_MAX ==> f == 2
        }),
{
}

} // verus!
