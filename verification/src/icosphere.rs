//! Subdivision of a closed triangle mesh, and the icosphere it grows.
//!
//! A mesh is modelled by its corner sequence: three vertex ids per face, face
//! after face. Corner `j` also names a half edge, the one that runs from
//! corner `j` to the next corner of the same face.
use std::collections::HashMap;
use vstd::prelude::*;

verus! {

broadcast use vstd::std_specs::hash::group_hash_axioms;

/// Faces of the icosahedron, in the order in which the vertex shader walks them.
pub const ICO_FACES: [[u16; 3]; 20] = [
    [0, 11, 5], [0, 5, 1], [0, 7, 1], [0, 7, 10], [0, 11, 10],
    [1, 5, 9], [5, 11, 4], [11, 10, 2], [10, 6, 7], [7, 1, 8],
    [3, 9, 4], [3, 2, 4], [3, 2, 6], [3, 6, 8], [3, 8, 9],
    [4, 9, 5], [2, 4, 11], [6, 2, 10], [8, 7, 6], [9, 1, 8],
];

// ---------------------------------------------------------------------------
// Model
// ---------------------------------------------------------------------------

/// Corner sequence of a face list.
pub open spec fn corners(faces: Seq<[u16; 3]>) -> Seq<int> {
    Seq::new(3 * faces.len(), |j: int| faces[j / 3][j % 3] as int)
}

/// Corner that follows `j` around its face.
pub open spec fn next_corner(j: int) -> int {
    if j % 3 == 2 {
        j - 2
    } else {
        j + 1
    }
}

/// One number per unordered pair of vertex ids below 65536.
pub open spec fn pair_key(a: int, b: int) -> int {
    if a <= b {
        a * 65536 + b
    } else {
        b * 65536 + a
    }
}

/// The undirected edge under half edge `j`.
pub open spec fn edge_key(c: Seq<int>, j: int) -> int {
    pair_key(c[j], c[next_corner(j)])
}

/// Distinct edges of the first `n` half edges, in order of first occurrence.
pub open spec fn edges(c: Seq<int>, n: nat) -> Seq<int>
    decreases n,
{
    if n == 0 {
        Seq::empty()
    } else {
        let before = edges(c, (n - 1) as nat);
        let key = edge_key(c, n - 1);
        if before.contains(key) {
            before
        } else {
            before.push(key)
        }
    }
}

/// All distinct edges of a mesh, in order of first occurrence.
pub open spec fn all_edges(c: Seq<int>) -> Seq<int> {
    edges(c, c.len())
}

/// Vertex id at the middle of half edge `j`: edges are numbered from `base`
/// on, in order of first occurrence.
#[verifier::opaque]
pub open spec fn midpoint(c: Seq<int>, base: int, j: int) -> int {
    base + all_edges(c).index_of(edge_key(c, j))
}

/// Vertex at local corner `e` of the four triangles that replace face `f`:
/// `[a, ab, ca]`, `[ab, b, bc]`, `[ca, bc, c]`, `[ab, bc, ca]`.
#[verifier::opaque]
pub open spec fn split_corner(c: Seq<int>, base: int, f: int, e: int) -> int {
    if e == 0 {
        c[3 * f]
    } else if e == 4 {
        c[3 * f + 1]
    } else if e == 8 {
        c[3 * f + 2]
    } else if e == 1 || e == 3 || e == 9 {
        midpoint(c, base, 3 * f)
    } else if e == 5 || e == 7 || e == 10 {
        midpoint(c, base, 3 * f + 1)
    } else {
        midpoint(c, base, 3 * f + 2)
    }
}

/// Mesh after every face has been split in four.
pub open spec fn split(c: Seq<int>, base: int) -> Seq<int> {
    Seq::new(4 * c.len(), |i: int| split_corner(c, base, i / 12, i % 12))
}

/// Icosphere after `level` rounds of subdivision, with its vertex count.
pub open spec fn icosphere(level: nat) -> (Seq<int>, int)
    decreases level,
{
    if level == 0 {
        (corners(ICO_FACES@), 12)
    } else {
        let (c, base) = icosphere((level - 1) as nat);
        (split(c, base), base + all_edges(c).len())
    }
}

// ---------------------------------------------------------------------------
// Distinct edges in order
// ---------------------------------------------------------------------------

/// Some half edge before `n` has this key.
spec fn key_occurs(c: Seq<int>, n: nat, key: int) -> bool {
    exists|j: int| 0 <= j < n && #[trigger] edge_key(c, j) == key
}

/// What `edges` holds: every key of the first `n` half edges, once.
proof fn edges_facts(c: Seq<int>, n: nat)
    ensures
        edges(c, n).len() <= n,
        edges(c, n).no_duplicates(),
        forall|j: int| 0 <= j < n ==> edges(c, n).contains(#[trigger] edge_key(c, j)),
        forall|r: int| 0 <= r < edges(c, n).len() ==> key_occurs(c, n, #[trigger] edges(c, n)[r]),
    decreases n,
{
    if n > 0 {
        let m = (n - 1) as nat;
        edges_facts(c, m);
        let before = edges(c, m);
        let key = edge_key(c, n - 1);
        let now = edges(c, n);
        if !before.contains(key) {
            assert(now == before.push(key));
            assert(now[now.len() - 1] == key);
            assert forall|j: int| 0 <= j < n implies now.contains(#[trigger] edge_key(c, j)) by {
                if j < m {
                    let r = choose|r: int| 0 <= r < before.len() && before[r] == edge_key(c, j);
                    assert(now[r] == edge_key(c, j));
                }
            }
            assert forall|r: int| 0 <= r < now.len() implies key_occurs(c, n, #[trigger] now[r]) by {
                if r < before.len() {
                    assert(key_occurs(c, m, before[r]));
                } else {
                    assert(edge_key(c, n - 1) == now[r]);
                }
            }
        } else {
            assert forall|r: int| 0 <= r < now.len() implies key_occurs(c, n, #[trigger] now[r]) by {
                assert(key_occurs(c, m, before[r]));
            }
        }
    }
}

/// Edges seen early keep their place.
proof fn edges_grow(c: Seq<int>, m: nat, n: nat)
    requires
        m <= n,
    ensures
        edges(c, m).len() <= edges(c, n).len(),
        forall|r: int| 0 <= r < edges(c, m).len() ==> edges(c, n)[r] == #[trigger] edges(c, m)[r],
    decreases n,
{
    if m < n {
        edges_grow(c, m, (n - 1) as nat);
    }
}

/// The place of a key in a sequence without duplicates.
proof fn index_of_unique(s: Seq<int>, r: int)
    requires
        s.no_duplicates(),
        0 <= r < s.len(),
    ensures
        s.index_of(s[r]) == r,
{
    assert(s.contains(s[r]));
    let i = s.index_of(s[r]);
    assert(0 <= i < s.len() && s[i] == s[r]);
}

/// Midpoints are numbered `base..base + edge count`, one per edge.
proof fn midpoint_facts(c: Seq<int>, base: int, j: int)
    requires
        0 <= j < c.len(),
    ensures
        base <= midpoint(c, base, j) < base + all_edges(c).len(),
        all_edges(c)[midpoint(c, base, j) - base] == edge_key(c, j),
{
    edges_facts(c, c.len());
    reveal(midpoint);
    let s = all_edges(c);
    assert(s.contains(edge_key(c, j)));
    let i = s.index_of(edge_key(c, j));
    assert(0 <= i < s.len() && s[i] == edge_key(c, j));
}

// ---------------------------------------------------------------------------
// Closed meshes
// ---------------------------------------------------------------------------

/// Vertices are numbered below `base`, and no half edge is a loop.
#[verifier::opaque]
pub open spec fn vertices_below(c: Seq<int>, base: int) -> bool {
    &&& c.len() % 3 == 0
    &&& 0 < base <= 65536
    &&& forall|j: int| 0 <= j < c.len() ==> 0 <= #[trigger] c[j] < base
    &&& forall|j: int| 0 <= j < c.len() ==> c[j] != c[#[trigger] next_corner(j)]
}

/// `twin` pairs each half edge with one of another face over the same edge.
#[verifier::opaque]
pub open spec fn twins_pair(c: Seq<int>, twin: spec_fn(int) -> int) -> bool {
    forall|j: int|
        0 <= j < c.len() ==> {
            &&& 0 <= #[trigger] twin(j) < c.len()
            &&& twin(j) / 3 != j / 3
            &&& twin(twin(j)) == j
            &&& edge_key(c, twin(j)) == edge_key(c, j)
        }
}

/// No third half edge lies over an edge.
#[verifier::opaque]
pub open spec fn twins_alone(c: Seq<int>, twin: spec_fn(int) -> int) -> bool {
    forall|i: int, j: int|
        0 <= i < c.len() && 0 <= j < c.len() && #[trigger] edge_key(c, i) == #[trigger] edge_key(
            c,
            j,
        ) ==> i == j || i == twin(j)
}

/// Two faces share at most one edge.
#[verifier::opaque]
pub open spec fn neighbours_differ(c: Seq<int>, twin: spec_fn(int) -> int) -> bool {
    forall|i: int, j: int|
        0 <= i < c.len() && 0 <= j < c.len() && i != j && i / 3 == j / 3 ==> #[trigger] twin(i) / 3
            != #[trigger] twin(j) / 3
}

/// `twin` shows that a mesh over vertices `0..base` is closed: each edge
/// belongs to exactly two faces, and two faces share at most one edge.
pub open spec fn closed_by(c: Seq<int>, base: int, twin: spec_fn(int) -> int) -> bool {
    &&& vertices_below(c, base)
    &&& twins_pair(c, twin)
    &&& twins_alone(c, twin)
    &&& neighbours_differ(c, twin)
}

/// Half edge `j` of a closed mesh and its twin.
proof fn twin_of(c: Seq<int>, base: int, twin: spec_fn(int) -> int, j: int)
    requires
        closed_by(c, base, twin),
        0 <= j < c.len(),
    ensures
        c.len() % 3 == 0,
        0 < base <= 65536,
        0 <= next_corner(j) < c.len(),
        0 <= c[j] < base,
        0 <= c[next_corner(j)] < base,
        c[j] != c[next_corner(j)],
        0 <= twin(j) < c.len(),
        twin(j) / 3 != j / 3,
        twin(twin(j)) == j,
        edge_key(c, twin(j)) == edge_key(c, j),
{
    reveal(vertices_below);
    reveal(twins_pair);
}

/// Half edges of a closed mesh over one edge are equal or twins.
proof fn twin_unique(c: Seq<int>, base: int, twin: spec_fn(int) -> int, i: int, j: int)
    requires
        closed_by(c, base, twin),
        0 <= i < c.len(),
        0 <= j < c.len(),
        edge_key(c, i) == edge_key(c, j),
    ensures
        i == j || i == twin(j),
{
    reveal(twins_alone);
}

/// The half edges of one face of a closed mesh have their twins in
/// different faces.
proof fn twins_apart(c: Seq<int>, base: int, twin: spec_fn(int) -> int, i: int, j: int)
    requires
        closed_by(c, base, twin),
        0 <= i < c.len(),
        0 <= j < c.len(),
        i != j,
        i / 3 == j / 3,
    ensures
        twin(i) / 3 != twin(j) / 3,
{
    reveal(neighbours_differ);
}

/// Local half edges that lie inside a split face, between two midpoints.
spec fn is_inner(e: int) -> bool {
    e == 1 || e == 5 || e == 6 || e == 9 || e == 10 || e == 11
}

/// The other triangle's copy of an inner half edge.
spec fn inner_mate(e: int) -> int {
    if e == 1 {
        11
    } else if e == 11 {
        1
    } else if e == 5 {
        9
    } else if e == 9 {
        5
    } else if e == 6 {
        10
    } else {
        6
    }
}

/// First of the two face edges whose midpoints an inner half edge joins.
spec fn inner_low(e: int) -> int {
    if e == 6 || e == 10 {
        1
    } else {
        0
    }
}

/// Second of the two face edges whose midpoints an inner half edge joins.
spec fn inner_high(e: int) -> int {
    if e == 5 || e == 9 {
        1
    } else {
        2
    }
}

/// Face edge that an outer local half edge is one half of.
spec fn outer_edge(e: int) -> int {
    if e == 0 || e == 3 {
        0
    } else if e == 4 || e == 7 {
        1
    } else {
        2
    }
}

/// Whether an outer local half edge is the half at the start of its face edge.
spec fn outer_first(e: int) -> bool {
    e == 0 || e == 4 || e == 8
}

/// Local half edge for a half of face edge `k`.
spec fn outer_slot(k: int, first: bool) -> int {
    if k == 0 {
        if first { 0 } else { 3 }
    } else if k == 1 {
        if first { 4 } else { 7 }
    } else {
        if first { 8 } else { 2 }
    }
}

/// Old half edge under outer half edge `i` of the split mesh.
spec fn outer_parent(i: int) -> int {
    3 * (i / 12) + outer_edge(i % 12)
}

/// Old vertex at the end of outer half edge `i` of the split mesh.
spec fn outer_vertex(c: Seq<int>, i: int) -> int {
    if outer_first(i % 12) {
        c[outer_parent(i)]
    } else {
        c[next_corner(outer_parent(i))]
    }
}

/// Pairing of the half edges of the split mesh.
#[verifier::opaque]
spec fn split_twin(c: Seq<int>, twin: spec_fn(int) -> int, i: int) -> int {
    if is_inner(i % 12) {
        12 * (i / 12) + inner_mate(i % 12)
    } else {
        let u = twin(outer_parent(i));
        12 * (u / 3) + outer_slot(u % 3, c[u] == outer_vertex(c, i))
    }
}

/// The corner after `i`, in terms of the split face and the local corner.
proof fn next_local(i: int)
    requires
        0 <= i,
    ensures
        next_corner(i) / 12 == i / 12,
        next_corner(i) % 12 == (if (i % 12) % 3 == 2 { i % 12 - 2 } else { i % 12 + 1 }),
{
    let e = i % 12;
    let q = i / 12;
    assert(i == 3 * (4 * q + e / 3) + e % 3);
    assert(i % 3 == e % 3);
    if e % 3 == 2 {
        assert(next_corner(i) == 12 * q + (e - 2));
    } else {
        assert(next_corner(i) == 12 * q + (e + 1));
    }
}

proof fn next_of_face(f: int)
    ensures
        next_corner(3 * f) == 3 * f + 1,
        next_corner(3 * f + 1) == 3 * f + 2,
        next_corner(3 * f + 2) == 3 * f,
        (3 * f) / 3 == f && (3 * f + 1) / 3 == f && (3 * f + 2) / 3 == f,
        (3 * f) % 3 == 0 && (3 * f + 1) % 3 == 1 && (3 * f + 2) % 3 == 2,
{
}

/// Corners of the split mesh, by split face and local corner.
proof fn split_at(c: Seq<int>, base: int, i: int)
    requires
        c.len() % 3 == 0,
        0 <= i < 4 * c.len(),
    ensures
        0 <= i / 12,
        3 * (i / 12) + 2 < c.len(),
        0 <= next_corner(i) < 4 * c.len(),
        split(c, base)[i] == split_corner(c, base, i / 12, i % 12),
        split(c, base)[next_corner(i)] == split_corner(c, base, i / 12, next_corner(i) % 12),
{
    next_local(i);
}

/// The ends of an outer half edge.
proof fn outer_ends(c: Seq<int>, base: int, i: int)
    requires
        c.len() % 3 == 0,
        0 <= i < 4 * c.len(),
        !is_inner(i % 12),
    ensures
        0 <= outer_parent(i) < c.len(),
        outer_parent(i) / 3 == i / 12,
        outer_parent(i) % 3 == outer_edge(i % 12),
        0 <= next_corner(i) < 4 * c.len(),
        edge_key(split(c, base), i) == pair_key(
            outer_vertex(c, i),
            midpoint(c, base, outer_parent(i)),
        ),
{
    let e = i % 12;
    next_local(i);
    next_of_face(i / 12);
    split_at(c, base, i);
    reveal(split_corner);
    if e == 0 {
    } else if e == 2 {
    } else if e == 3 {
    } else if e == 4 {
    } else if e == 7 {
    } else {
        assert(e == 8);
    }
}

/// The ends of an inner half edge.
proof fn inner_ends(c: Seq<int>, base: int, i: int)
    requires
        c.len() % 3 == 0,
        0 <= i < 4 * c.len(),
        is_inner(i % 12),
    ensures
        0 <= 3 * (i / 12) && 3 * (i / 12) + 2 < c.len(),
        0 <= next_corner(i) < 4 * c.len(),
        edge_key(split(c, base), i) == pair_key(
            midpoint(c, base, 3 * (i / 12) + inner_low(i % 12)),
            midpoint(c, base, 3 * (i / 12) + inner_high(i % 12)),
        ),
{
    next_local(i);
    split_at(c, base, i);
    reveal(split_corner);
}

/// Two half edges of one face of a closed mesh lie on different edges.
proof fn face_edges_differ(c: Seq<int>, base: int, twin: spec_fn(int) -> int, i: int, j: int)
    requires
        closed_by(c, base, twin),
        0 <= i < c.len(),
        0 <= j < c.len(),
        i != j,
        i / 3 == j / 3,
    ensures
        edge_key(c, i) != edge_key(c, j),
        midpoint(c, base, i) != midpoint(c, base, j),
{
    twin_of(c, base, twin, j);
    if edge_key(c, i) == edge_key(c, j) {
        twin_unique(c, base, twin, i, j);
    }
    midpoint_facts(c, base, i);
    midpoint_facts(c, base, j);
}

/// Equal keys join the same two vertices.
proof fn pair_key_injective(a: int, b: int, x: int, y: int)
    requires
        0 <= a < 65536,
        0 <= b < 65536,
        0 <= x < 65536,
        0 <= y < 65536,
        pair_key(a, b) == pair_key(x, y),
    ensures
        (a == x && b == y) || (a == y && b == x),
{
}

/// `split_twin` pairs half edge `i` of the split mesh with another face's
/// half edge over the same edge.
proof fn split_twin_pairs(c: Seq<int>, base: int, twin: spec_fn(int) -> int, i: int)
    requires
        closed_by(c, base, twin),
        0 <= i < 4 * c.len(),
    ensures
        0 <= split_twin(c, twin, i) < 4 * c.len(),
        is_inner(i % 12) ==> split_twin(c, twin, i) == 12 * (i / 12) + inner_mate(i % 12),
        !is_inner(i % 12) ==> split_twin(c, twin, i) / 12 == twin(outer_parent(i)) / 3,
        split_twin(c, twin, i) / 3 != i / 3,
        split_twin(c, twin, split_twin(c, twin, i)) == i,
        edge_key(split(c, base), split_twin(c, twin, i)) == edge_key(split(c, base), i),
{
    let u = split_twin(c, twin, i);
    let f = i / 12;
    let e = i % 12;
    reveal(vertices_below);
    reveal(twins_pair);
    reveal(split_twin);
    if is_inner(e) {
        inner_ends(c, base, i);
        assert(u / 12 == f && u % 12 == inner_mate(e));
        inner_ends(c, base, u);
    } else {
        outer_ends(c, base, i);
        let j = outer_parent(i);
        let w = twin(j);
        assert(0 <= w < c.len());
        let v = outer_vertex(c, i);
        let slot = outer_slot(w % 3, c[w] == v);
        assert(0 <= slot < 12 && !is_inner(slot));
        assert(u / 12 == w / 3 && u % 12 == slot);
        assert(u < 4 * c.len());
        outer_ends(c, base, u);
        assert(outer_parent(u) == w);
        assert(0 <= next_corner(j) < c.len() && 0 <= next_corner(w) < c.len());
        pair_key_injective(c[j], c[next_corner(j)], c[w], c[next_corner(w)]);
        assert(outer_vertex(c, u) == v);
        midpoint_facts(c, base, j);
        midpoint_facts(c, base, w);
        assert(midpoint(c, base, w) == midpoint(c, base, j)) by {
            reveal(midpoint);
        }
        assert(twin(w) == j);
        assert(outer_slot(j % 3, c[j] == v) == e);
    }
}

/// In the split mesh only an inner half edge's own face has another half
/// edge between the same midpoints.
proof fn inner_unique(c: Seq<int>, base: int, twin: spec_fn(int) -> int, i: int, k: int)
    requires
        closed_by(c, base, twin),
        base + all_edges(c).len() <= 65536,
        0 <= i < 4 * c.len(),
        0 <= k < 4 * c.len(),
        is_inner(i % 12),
        is_inner(k % 12),
        edge_key(split(c, base), i) == edge_key(split(c, base), k),
    ensures
        i == k || i == split_twin(c, twin, k),
{
    assert(c.len() % 3 == 0 && 0 < base) by {
        reveal(vertices_below);
    }
    inner_ends(c, base, i);
    inner_ends(c, base, k);
    let f = i / 12;
    let g = k / 12;
    let i1 = 3 * f + inner_low(i % 12);
    let i2 = 3 * f + inner_high(i % 12);
    let k1 = 3 * g + inner_low(k % 12);
    let k2 = 3 * g + inner_high(k % 12);
    midpoint_facts(c, base, i1);
    midpoint_facts(c, base, i2);
    midpoint_facts(c, base, k1);
    midpoint_facts(c, base, k2);
    pair_key_injective(
        midpoint(c, base, i1),
        midpoint(c, base, i2),
        midpoint(c, base, k1),
        midpoint(c, base, k2),
    );
    assert(i1 / 3 == f && i2 / 3 == f && k1 / 3 == g && k2 / 3 == g);
    same_two_edges(c, base, twin, i1, i2, k1, k2);
    assert(f == g);
    face_edges_differ(c, base, twin, 3 * f, 3 * f + 1);
    face_edges_differ(c, base, twin, 3 * f, 3 * f + 2);
    face_edges_differ(c, base, twin, 3 * f + 1, 3 * f + 2);
    reveal(split_twin);
    assert(inner_low(i % 12) == inner_low(k % 12));
    assert(inner_high(i % 12) == inner_high(k % 12));
}

/// In the split mesh a half of an old edge is covered by that edge's two
/// half edges alone.
proof fn outer_unique(c: Seq<int>, base: int, twin: spec_fn(int) -> int, i: int, k: int)
    requires
        closed_by(c, base, twin),
        base + all_edges(c).len() <= 65536,
        0 <= i < 4 * c.len(),
        0 <= k < 4 * c.len(),
        !is_inner(i % 12),
        !is_inner(k % 12),
        edge_key(split(c, base), i) == edge_key(split(c, base), k),
    ensures
        i == k || i == split_twin(c, twin, k),
{
    assert(c.len() % 3 == 0) by {
        reveal(vertices_below);
    }
    outer_ends(c, base, i);
    outer_ends(c, base, k);
    let j = outer_parent(i);
    let m = outer_parent(k);
    midpoint_facts(c, base, j);
    midpoint_facts(c, base, m);
    twin_of(c, base, twin, j);
    twin_of(c, base, twin, m);
    pair_key_injective(
        outer_vertex(c, i),
        midpoint(c, base, j),
        outer_vertex(c, k),
        midpoint(c, base, m),
    );
    twin_unique(c, base, twin, j, m);
    reveal(split_twin);
}

/// An inner and an outer half edge of the split mesh never lie over one edge.
proof fn inner_is_not_outer(c: Seq<int>, base: int, twin: spec_fn(int) -> int, i: int, k: int)
    requires
        closed_by(c, base, twin),
        base + all_edges(c).len() <= 65536,
        0 <= i < 4 * c.len(),
        0 <= k < 4 * c.len(),
        is_inner(i % 12),
        !is_inner(k % 12),
    ensures
        edge_key(split(c, base), i) != edge_key(split(c, base), k),
{
    assert(c.len() % 3 == 0) by {
        reveal(vertices_below);
    }
    inner_ends(c, base, i);
    outer_ends(c, base, k);
    let i1 = 3 * (i / 12) + inner_low(i % 12);
    let i2 = 3 * (i / 12) + inner_high(i % 12);
    midpoint_facts(c, base, i1);
    midpoint_facts(c, base, i2);
    midpoint_facts(c, base, outer_parent(k));
    twin_of(c, base, twin, outer_parent(k));
    if edge_key(split(c, base), i) == edge_key(split(c, base), k) {
        pair_key_injective(
            midpoint(c, base, i1),
            midpoint(c, base, i2),
            outer_vertex(c, k),
            midpoint(c, base, outer_parent(k)),
        );
    }
}

/// Two faces of a closed mesh that share two edges are the same face.
proof fn same_two_edges(
    c: Seq<int>,
    base: int,
    twin: spec_fn(int) -> int,
    i1: int,
    i2: int,
    k1: int,
    k2: int,
)
    requires
        closed_by(c, base, twin),
        0 <= i1 < c.len() && 0 <= i2 < c.len(),
        0 <= k1 < c.len() && 0 <= k2 < c.len(),
        i1 / 3 == i2 / 3 && i1 != i2,
        k1 / 3 == k2 / 3 && k1 != k2,
        ({
            ||| edge_key(c, i1) == edge_key(c, k1) && edge_key(c, i2) == edge_key(c, k2)
            ||| edge_key(c, i1) == edge_key(c, k2) && edge_key(c, i2) == edge_key(c, k1)
        }),
    ensures
        i1 / 3 == k1 / 3,
{
    twins_apart(c, base, twin, k1, k2);
    if edge_key(c, i1) == edge_key(c, k1) && edge_key(c, i2) == edge_key(c, k2) {
        twin_unique(c, base, twin, i1, k1);
        twin_unique(c, base, twin, i2, k2);
    } else {
        twin_unique(c, base, twin, i1, k2);
        twin_unique(c, base, twin, i2, k1);
    }
}

/// Vertices of the split mesh are numbered below its vertex count, and the
/// ends of a half edge differ.
proof fn split_vertices(c: Seq<int>, base: int, twin: spec_fn(int) -> int, i: int)
    requires
        closed_by(c, base, twin),
        base + all_edges(c).len() <= 65536,
        0 <= i < 4 * c.len(),
    ensures
        0 <= split(c, base)[i] < base + all_edges(c).len(),
        split(c, base)[i] != split(c, base)[next_corner(i)],
{
    assert(c.len() % 3 == 0) by {
        reveal(vertices_below);
    }
    let f = i / 12;
    let e = i % 12;
    assert(i == 12 * f + e && 0 <= f && 3 * f + 2 < c.len());
    assert(next_corner(i) / 12 == f);
    assert(next_corner(i) % 12 == (if e % 3 == 2 { e - 2 } else { e + 1 }));
    reveal(split_corner);
    midpoint_facts(c, base, 3 * f);
    midpoint_facts(c, base, 3 * f + 1);
    midpoint_facts(c, base, 3 * f + 2);
    twin_of(c, base, twin, 3 * f);
    twin_of(c, base, twin, 3 * f + 1);
    twin_of(c, base, twin, 3 * f + 2);
    face_edges_differ(c, base, twin, 3 * f, 3 * f + 1);
    face_edges_differ(c, base, twin, 3 * f, 3 * f + 2);
    face_edges_differ(c, base, twin, 3 * f + 1, 3 * f + 2);
}

proof fn inner_mates_apart(f: int, d: int, e: int)
    requires
        0 <= d < 12,
        0 <= e < 12,
        is_inner(d),
        is_inner(e),
        d != e,
        d / 3 == e / 3,
    ensures
        (12 * f + inner_mate(d)) / 3 != (12 * f + inner_mate(e)) / 3,
{
}

proof fn apart_in_twelfths(u: int, w: int)
    requires
        u / 12 != w / 12,
    ensures
        u / 3 != w / 3,
{
}

/// In the split mesh, the half edges of one face have their twins in
/// different faces.
proof fn split_faces_apart(c: Seq<int>, base: int, twin: spec_fn(int) -> int, i: int, j: int)
    requires
        closed_by(c, base, twin),
        0 <= i < 4 * c.len(),
        0 <= j < 4 * c.len(),
        i != j,
        i / 3 == j / 3,
    ensures
        split_twin(c, twin, i) / 3 != split_twin(c, twin, j) / 3,
{
    assert(c.len() % 3 == 0) by {
        reveal(vertices_below);
    }
    let u = split_twin(c, twin, i);
    let w = split_twin(c, twin, j);
    split_twin_pairs(c, base, twin, i);
    split_twin_pairs(c, base, twin, j);
    assert(i / 12 == j / 12 && (i % 12) / 3 == (j % 12) / 3 && i % 12 != j % 12);
    if is_inner(i % 12) && is_inner(j % 12) {
        inner_mates_apart(i / 12, i % 12, j % 12);
    } else {
        if is_inner(i % 12) {
            outer_ends(c, base, j);
            twin_of(c, base, twin, outer_parent(j));
            assert(u / 12 == i / 12);
        } else if is_inner(j % 12) {
            outer_ends(c, base, i);
            twin_of(c, base, twin, outer_parent(i));
            assert(w / 12 == i / 12);
        } else {
            outer_ends(c, base, i);
            outer_ends(c, base, j);
            outer_edges_differ(i % 12, j % 12);
            twins_apart(c, base, twin, outer_parent(i), outer_parent(j));
        }
        apart_in_twelfths(u, w);
    }
}

proof fn outer_edges_differ(d: int, e: int)
    requires
        0 <= d < 12,
        0 <= e < 12,
        !is_inner(d),
        !is_inner(e),
        d != e,
        d / 3 == e / 3,
    ensures
        outer_edge(d) != outer_edge(e),
{
}

/// The pairing of the split mesh, half edge by half edge.
spec fn split_twins(c: Seq<int>, twin: spec_fn(int) -> int) -> spec_fn(int) -> int {
    |i: int| split_twin(c, twin, i)
}

proof fn vertices_below_intro(c: Seq<int>, base: int)
    requires
        c.len() % 3 == 0,
        0 < base <= 65536,
        forall|j: int| 0 <= j < c.len() ==> 0 <= #[trigger] c[j] < base,
        forall|j: int| 0 <= j < c.len() ==> c[j] != c[#[trigger] next_corner(j)],
    ensures
        vertices_below(c, base),
{
    reveal(vertices_below);
}

proof fn split_vertices_below(c: Seq<int>, base: int, twin: spec_fn(int) -> int)
    requires
        closed_by(c, base, twin),
        base + all_edges(c).len() <= 65536,
    ensures
        vertices_below(split(c, base), base + all_edges(c).len()),
{
    let s = split(c, base);
    let top = base + all_edges(c).len();
    assert(c.len() % 3 == 0 && 0 < base) by {
        reveal(vertices_below);
    }
    assert forall|i: int| 0 <= i < s.len() implies 0 <= #[trigger] s[i] < top by {
        split_vertices(c, base, twin, i);
    }
    assert forall|i: int| 0 <= i < s.len() implies s[i] != s[#[trigger] next_corner(i)] by {
        split_vertices(c, base, twin, i);
    }
    vertices_below_intro(s, top);
}

proof fn split_twins_pair(c: Seq<int>, base: int, twin: spec_fn(int) -> int)
    requires
        closed_by(c, base, twin),
    ensures
        twins_pair(split(c, base), split_twins(c, twin)),
{
    let s = split(c, base);
    let t = split_twins(c, twin);
    assert forall|i: int| 0 <= i < s.len() implies {
        &&& 0 <= #[trigger] t(i) < s.len()
        &&& t(i) / 3 != i / 3
        &&& t(t(i)) == i
        &&& edge_key(s, t(i)) == edge_key(s, i)
    } by {
        split_twin_pairs(c, base, twin, i);
    }
    reveal(twins_pair);
}

proof fn split_twins_alone(c: Seq<int>, base: int, twin: spec_fn(int) -> int)
    requires
        closed_by(c, base, twin),
        base + all_edges(c).len() <= 65536,
    ensures
        twins_alone(split(c, base), split_twins(c, twin)),
{
    let s = split(c, base);
    let t = split_twins(c, twin);
    assert forall|i: int, j: int|
        0 <= i < s.len() && 0 <= j < s.len() && #[trigger] edge_key(s, i) == #[trigger] edge_key(
            s,
            j,
        ) implies i == j || i == t(j) by {
        if is_inner(i % 12) && is_inner(j % 12) {
            inner_unique(c, base, twin, i, j);
        } else if is_inner(i % 12) {
            inner_is_not_outer(c, base, twin, i, j);
        } else if is_inner(j % 12) {
            inner_is_not_outer(c, base, twin, j, i);
        } else {
            outer_unique(c, base, twin, i, j);
        }
    }
    reveal(twins_alone);
}

proof fn split_neighbours_differ(c: Seq<int>, base: int, twin: spec_fn(int) -> int)
    requires
        closed_by(c, base, twin),
    ensures
        neighbours_differ(split(c, base), split_twins(c, twin)),
{
    let s = split(c, base);
    let t = split_twins(c, twin);
    assert forall|i: int, j: int|
        0 <= i < s.len() && 0 <= j < s.len() && i != j && i / 3 == j / 3 implies #[trigger] t(i) / 3
        != #[trigger] t(j) / 3 by {
        split_faces_apart(c, base, twin, i, j);
    }
    reveal(neighbours_differ);
}

/// Splitting every face in four keeps a mesh closed.
proof fn split_stays_closed(c: Seq<int>, base: int, twin: spec_fn(int) -> int)
    requires
        closed_by(c, base, twin),
        base + all_edges(c).len() <= 65536,
    ensures
        closed_by(split(c, base), base + all_edges(c).len(), split_twins(c, twin)),
{
    split_vertices_below(c, base, twin);
    split_twins_pair(c, base, twin);
    split_twins_alone(c, base, twin);
    split_neighbours_differ(c, base, twin);
}

// ---------------------------------------------------------------------------
// Counting edges
// ---------------------------------------------------------------------------

/// Half edges before `n` that come before their twin.
spec fn leaders(twin: spec_fn(int) -> int, n: int) -> Set<int> {
    Set::new(|i: int| 0 <= i < n && i < twin(i))
}

/// Each distinct edge is counted at the first of its two half edges.
proof fn edges_are_leaders(c: Seq<int>, base: int, twin: spec_fn(int) -> int, n: nat)
    requires
        closed_by(c, base, twin),
        n <= c.len(),
    ensures
        leaders(twin, n as int).finite(),
        edges(c, n).len() == leaders(twin, n as int).len(),
    decreases n,
{
    if n == 0 {
        assert(leaders(twin, 0) =~= Set::empty());
    } else {
        let m = n - 1;
        edges_are_leaders(c, base, twin, m as nat);
        edges_facts(c, m as nat);
        twin_of(c, base, twin, m);
        let before = edges(c, m as nat);
        let key = edge_key(c, m);
        if m < twin(m) {
            assert(leaders(twin, n as int) =~= leaders(twin, m).insert(m));
            if before.contains(key) {
                let r = choose|r: int| 0 <= r < before.len() && before[r] == key;
                assert(key_occurs(c, m as nat, before[r]));
                let j = choose|j: int| 0 <= j < m && #[trigger] edge_key(c, j) == key;
                twin_unique(c, base, twin, j, m);
                assert(false);
            }
        } else {
            assert(leaders(twin, n as int) =~= leaders(twin, m));
            assert(twin(m) != m);
            assert(before.contains(edge_key(c, twin(m))));
        }
    }
}

/// A closed mesh has three edges for every two faces.
proof fn closed_edge_count(c: Seq<int>, base: int, twin: spec_fn(int) -> int)
    requires
        closed_by(c, base, twin),
    ensures
        2 * all_edges(c).len() == c.len(),
{
    let n = c.len() as int;
    edges_are_leaders(c, base, twin, c.len());
    let lead = leaders(twin, n);
    let follow = Set::new(|i: int| 0 <= i < n && twin(i) < i);
    assert forall|i: int| 0 <= i < n implies {
        &&& 0 <= #[trigger] twin(i) < n
        &&& twin(i) != i
        &&& twin(twin(i)) == i
    } by {
        twin_of(c, base, twin, i);
    }
    assert(lead.map(twin) =~= follow) by {
        assert forall|i: int| follow.contains(i) implies lead.map(twin).contains(i) by {
            assert(lead.contains(twin(i)));
            assert(twin(twin(i)) == i);
        }
        assert forall|i: int| lead.map(twin).contains(i) implies follow.contains(i) by {
            let j = choose|j: int| lead.contains(j) && twin(j) == i;
            assert(twin(twin(j)) == j);
        }
    }
    vstd::set_lib::lemma_map_size(lead, follow, twin);
    vstd::set_lib::lemma_set_disjoint_lens(lead, follow);
    vstd::set_lib::lemma_int_range(0, n);
    assert(lead + follow =~= vstd::set_lib::set_int_range(0, n));
}

// ---------------------------------------------------------------------------
// The icosahedron
// ---------------------------------------------------------------------------

/// Pairing of the half edges of the icosahedron.
const ICO_TWIN: [u8; 60] = [
    12, 18, 3, 2, 15, 8, 9, 27, 5, 6, 26, 14, 0, 21, 11,
    4, 46, 57, 1, 49, 47, 13, 52, 50, 53, 55, 10, 7, 58, 54,
    44, 45, 35, 36, 48, 32, 33, 51, 39, 38, 56, 42, 41, 59, 30,
    31, 16, 20, 34, 19, 23, 37, 22, 24, 29, 25, 40, 17, 28, 43,
];

/// First half edge of the icosahedron over the edge between `low` and `high`.
spec fn ico_leader(low: int, high: int) -> int {
    if low == 0 && high == 11 {
        0
    } else if low == 5 && high == 11 {
        1
    } else if low == 0 && high == 5 {
        2
    } else if low == 1 && high == 5 {
        4
    } else if low == 0 && high == 1 {
        5
    } else if low == 0 && high == 7 {
        6
    } else if low == 1 && high == 7 {
        7
    } else if low == 7 && high == 10 {
        10
    } else if low == 0 && high == 10 {
        11
    } else if low == 10 && high == 11 {
        13
    } else if low == 5 && high == 9 {
        16
    } else if low == 1 && high == 9 {
        17
    } else if low == 4 && high == 11 {
        19
    } else if low == 4 && high == 5 {
        20
    } else if low == 2 && high == 10 {
        22
    } else if low == 2 && high == 11 {
        23
    } else if low == 6 && high == 10 {
        24
    } else if low == 6 && high == 7 {
        25
    } else if low == 1 && high == 8 {
        28
    } else if low == 7 && high == 8 {
        29
    } else if low == 3 && high == 9 {
        30
    } else if low == 4 && high == 9 {
        31
    } else if low == 3 && high == 4 {
        32
    } else if low == 2 && high == 3 {
        33
    } else if low == 2 && high == 4 {
        34
    } else if low == 2 && high == 6 {
        37
    } else if low == 3 && high == 6 {
        38
    } else if low == 6 && high == 8 {
        40
    } else if low == 3 && high == 8 {
        41
    } else if low == 8 && high == 9 {
        43
    } else {
        -1
    }
}

spec fn ico_twins() -> spec_fn(int) -> int {
    |j: int| ICO_TWIN[j] as int
}

proof fn ico_half_edge(j: int)
    requires
        0 <= j < 60,
    ensures
        ({
            let c = corners(ICO_FACES@);
            let u = ICO_TWIN[j] as int;
            let a = c[j];
            let b = c[next_corner(j)];
            let low = if a <= b { a } else { b };
            let high = if a <= b { b } else { a };
            &&& 0 <= a < 12
            &&& a != b
            &&& 0 <= u < 60
            &&& u / 3 != j / 3
            &&& ICO_TWIN[u] == j
            &&& edge_key(c, u) == edge_key(c, j)
            &&& ico_leader(low, high) == (if j < u { j } else { u })
        }),
{
}

proof fn ico_closed()
    ensures
        closed_by(corners(ICO_FACES@), 12, ico_twins()),
{
    let c = corners(ICO_FACES@);
    let t = ico_twins();
    assert(c.len() == 60);
    assert forall|j: int| 0 <= j < 60 implies 0 <= #[trigger] c[j] < 12 by {
        ico_half_edge(j);
    }
    assert forall|j: int| 0 <= j < 60 implies c[j] != c[#[trigger] next_corner(j)] by {
        ico_half_edge(j);
    }
    vertices_below_intro(c, 12);
    assert forall|j: int| 0 <= j < 60 implies {
        &&& 0 <= #[trigger] t(j) < 60
        &&& t(j) / 3 != j / 3
        &&& t(t(j)) == j
        &&& edge_key(c, t(j)) == edge_key(c, j)
    } by {
        ico_half_edge(j);
    }
    assert(twins_pair(c, t)) by {
        reveal(twins_pair);
    }
    assert forall|i: int, j: int|
        0 <= i < 60 && 0 <= j < 60 && #[trigger] edge_key(c, i) == #[trigger] edge_key(
            c,
            j,
        ) implies i == j || i == t(j) by {
        ico_half_edge(i);
        ico_half_edge(j);
        assert(0 <= next_corner(i) < 60 && 0 <= next_corner(j) < 60);
        ico_half_edge(next_corner(i));
        ico_half_edge(next_corner(j));
        pair_key_injective(c[i], c[next_corner(i)], c[j], c[next_corner(j)]);
        ico_half_edge(t(i));
        ico_half_edge(t(j));
    }
    assert(twins_alone(c, t)) by {
        reveal(twins_alone);
    }
    assert forall|i: int, j: int|
        0 <= i < 60 && 0 <= j < 60 && i != j && i / 3 == j / 3 implies #[trigger] t(i) / 3
        != #[trigger] t(j) / 3 by {
        ico_neighbours(i / 3);
        let f = i / 3;
        assert(i == 3 * f || i == 3 * f + 1 || i == 3 * f + 2);
        assert(j == 3 * f || j == 3 * f + 1 || j == 3 * f + 2);
    }
    assert(neighbours_differ(c, t)) by {
        reveal(neighbours_differ);
    }
}

proof fn ico_neighbours(f: int)
    requires
        0 <= f < 20,
    ensures
        ICO_TWIN[3 * f] as int / 3 != ICO_TWIN[3 * f + 1] as int / 3,
        ICO_TWIN[3 * f] as int / 3 != ICO_TWIN[3 * f + 2] as int / 3,
        ICO_TWIN[3 * f + 1] as int / 3 != ICO_TWIN[3 * f + 2] as int / 3,
{
}

/// Every vertex id below `base` is some corner of the mesh.
pub open spec fn all_used(c: Seq<int>, base: int) -> bool {
    forall|v: int| 0 <= v < base ==> #[trigger] c.contains(v)
}

proof fn ico_all_used()
    ensures
        all_used(corners(ICO_FACES@), 12),
{
    let c = corners(ICO_FACES@);
    assert(c[0] == 0 && c[5] == 1 && c[23] == 2 && c[30] == 3 && c[20] == 4 && c[2] == 5);
    assert(c[25] == 6 && c[7] == 7 && c[29] == 8 && c[17] == 9 && c[11] == 10 && c[1] == 11);
}

proof fn split_all_used(c: Seq<int>, base: int)
    requires
        c.len() % 3 == 0,
        all_used(c, base),
    ensures
        all_used(split(c, base), base + all_edges(c).len()),
{
    let s = split(c, base);
    edges_facts(c, c.len());
    assert forall|v: int| 0 <= v < base + all_edges(c).len() implies #[trigger] s.contains(v) by {
        if v < base {
            assert(c.contains(v));
            let j = choose|j: int| 0 <= j < c.len() && c[j] == v;
            let i = 12 * (j / 3) + 4 * (j % 3);
            assert(i / 12 == j / 3 && i % 12 == 4 * (j % 3));
            split_at(c, base, i);
            reveal(split_corner);
            assert(j == 3 * (j / 3) + j % 3);
            assert(s[i] == v);
        } else {
            let r = v - base;
            assert(key_occurs(c, c.len(), all_edges(c)[r]));
            let j = choose|j: int| 0 <= j < c.len() && #[trigger] edge_key(c, j) == all_edges(c)[r];
            index_of_unique(all_edges(c), r);
            assert(midpoint(c, base, j) == v) by {
                reveal(midpoint);
            }
            let k = j % 3;
            let e = if k == 0 { 1int } else if k == 1 { 5 } else { 2 };
            let i = 12 * (j / 3) + e;
            assert(i / 12 == j / 3 && i % 12 == e);
            split_at(c, base, i);
            reveal(split_corner);
            assert(j == 3 * (j / 3) + k);
            assert(s[i] == v);
        }
    }
}

/// Vertices of the icosphere after `level` rounds, for up to three rounds.
pub open spec fn vertex_count(level: nat) -> int {
    if level == 0 {
        12
    } else if level == 1 {
        42
    } else if level == 2 {
        162
    } else {
        642
    }
}

/// Corners of the icosphere after `level` rounds, for up to three rounds.
pub open spec fn corner_count(level: nat) -> int {
    if level == 0 {
        60
    } else if level == 1 {
        240
    } else if level == 2 {
        960
    } else {
        3840
    }
}

/// The icosphere is a closed mesh on every level: each edge belongs to exactly
/// two faces. It uses exactly the vertex ids below its vertex count, which is
/// 12, 42, 162 and 642 from level to level, and has 20, 80, 320 and 1280 faces.
pub proof fn icosphere_is_closed(level: nat)
    requires
        level <= 3,
    ensures
        icosphere(level).0.len() == corner_count(level),
        icosphere(level).1 == vertex_count(level),
        exists|twin: spec_fn(int) -> int|
            closed_by(icosphere(level).0, icosphere(level).1, twin),
        all_used(icosphere(level).0, icosphere(level).1),
        forall|j: int|
            0 <= j < icosphere(level).0.len() ==> 0 <= #[trigger] icosphere(level).0[j]
                < icosphere(level).1,
    decreases level,
{
    if level == 0 {
        ico_closed();
        ico_all_used();
    } else {
        let below = (level - 1) as nat;
        icosphere_is_closed(below);
        let (c, base) = icosphere(below);
        let twin = choose|twin: spec_fn(int) -> int| closed_by(c, base, twin);
        closed_edge_count(c, base, twin);
        split_stays_closed(c, base, twin);
        assert(c.len() % 3 == 0) by {
            reveal(vertices_below);
        }
        split_all_used(c, base);
    }
    let (c, base) = icosphere(level);
    let twin = choose|twin: spec_fn(int) -> int| closed_by(c, base, twin);
    assert forall|j: int| 0 <= j < c.len() implies 0 <= #[trigger] c[j] < base by {
        twin_of(c, base, twin, j);
    }
}

// ---------------------------------------------------------------------------
// Building the mesh
// ---------------------------------------------------------------------------

/// `ids` numbers the edge keys in `es` from `base` on.
spec fn numbers(ids: Map<u32, u16>, es: Seq<int>, base: int) -> bool {
    &&& es.no_duplicates()
    &&& forall|k: u32| #[trigger] ids.contains_key(k) <==> es.contains(k as int)
    &&& forall|r: int|
        0 <= r < es.len() ==> 0 <= #[trigger] es[r] <= u32::MAX && ids[es[r] as u32] == base + r
}

/// A half edge's place among all edges is its place among those seen so far.
proof fn midpoint_is_early_place(c: Seq<int>, base: int, j: int, n: nat)
    requires
        0 <= j < n <= c.len(),
    ensures
        midpoint(c, base, j) == base + edges(c, n).index_of(edge_key(c, j)),
{
    edges_facts(c, n);
    edges_facts(c, c.len());
    edges_grow(c, n, c.len());
    let es = edges(c, n);
    assert(es.contains(edge_key(c, j)));
    let r = es.index_of(edge_key(c, j));
    assert(0 <= r < es.len() && es[r] == edge_key(c, j));
    index_of_unique(all_edges(c), r);
    reveal(midpoint);
}

/// Id of the vertex between `a` and `b`, which takes the next free id where
/// the edge is new.
fn midpoint_id(
    ids: &mut HashMap<u32, u16>,
    next: &mut u16,
    a: u16,
    b: u16,
    Ghost(es): Ghost<Seq<int>>,
    Ghost(base): Ghost<int>,
) -> (id: u16)
    requires
        numbers(old(ids)@, es, base),
        *old(next) == base + es.len(),
        *old(next) < u16::MAX,
    ensures
        ({
            let key = pair_key(a as int, b as int);
            let now = if es.contains(key) { es } else { es.push(key) };
            &&& numbers(final(ids)@, now, base)
            &&& *final(next) == base + now.len()
            &&& id == base + now.index_of(key)
        }),
{
    let (low, high): (u16, u16) = if a <= b {
        (a, b)
    } else {
        (b, a)
    };
    let key: u32 = low as u32 * 65536 + high as u32;
    let ghost k = key as int;
    assert(k == pair_key(a as int, b as int));
    let known: Option<u16> = match ids.get(&key) {
        Some(id) => Some(*id),
        None => None,
    };
    match known {
        Some(id) => {
            proof {
                assert(es.contains(k));
                let r = es.index_of(k);
                assert(0 <= r < es.len() && es[r] == k);
            }
            id
        },
        None => {
            let id: u16 = *next;
            ids.insert(key, id);
            *next = id + 1;
            proof {
                let now = es.push(k);
                assert(!es.contains(k));
                assert(now[es.len() as int] == k);
                assert forall|j: u32| #[trigger] ids@.contains_key(j) <==> now.contains(j as int) by {
                    if es.contains(j as int) {
                        let r = choose|r: int| 0 <= r < es.len() && es[r] == j as int;
                        assert(now[r] == j as int);
                    }
                    if now.contains(j as int) && j != key {
                        let r = choose|r: int| 0 <= r < now.len() && now[r] == j as int;
                        assert(r < es.len());
                        assert(es[r] == j as int);
                    }
                }
                assert forall|r: int| 0 <= r < now.len() implies 0 <= #[trigger] now[r] <= u32::MAX
                    && ids@[now[r] as u32] == base + r by {
                    if r < es.len() {
                        assert(now[r] == es[r]);
                        assert(es.contains(es[r]));
                    }
                }
                index_of_unique(now, es.len() as int);
            }
            id
        },
    }
}

/// Split every face in four around the midpoints of its edges. Midpoints are
/// numbered from `base` on, in the order in which the faces reach them.
pub fn subdivide(faces: &Vec<[u16; 3]>, base: u16) -> (r: (Vec<[u16; 3]>, u16))
    requires
        base + 3 * faces.len() < u16::MAX,
    ensures
        corners(r.0@) == split(corners(faces@), base as int),
        r.1 == base + all_edges(corners(faces@)).len(),
{
    let ghost c = corners(faces@);
    let mut ids: HashMap<u32, u16> = HashMap::new();
    let mut next: u16 = base;
    let mut out: Vec<[u16; 3]> = Vec::new();
    let mut f: usize = 0;
    assert(edges(c, 0).len() == 0);
    while f < faces.len()
        invariant
            c == corners(faces@),
            f <= faces.len(),
            base + 3 * faces.len() < u16::MAX,
            numbers(ids@, edges(c, (3 * f) as nat), base as int),
            next == base + edges(c, (3 * f) as nat).len(),
            out.len() == 4 * f,
            forall|g: int, q: int, k: int|
                0 <= g < f && 0 <= q < 4 && 0 <= k < 3 ==> (#[trigger] out[4 * g + q][k]) as int
                    == split_corner(c, base as int, g, 3 * q + k),
        decreases faces.len() - f,
    {
        let face: [u16; 3] = faces[f];
        let a: u16 = face[0];
        let b: u16 = face[1];
        let d: u16 = face[2];
        let ghost n = 3 * f;
        proof {
            assert(c[n] == a && c[n + 1] == b && c[n + 2] == d) by {
                assert(n / 3 == f && (n + 1) / 3 == f && (n + 2) / 3 == f);
            }
            next_of_face(f as int);
            edges_facts(c, n as nat);
            edges_facts(c, (n + 1) as nat);
            edges_facts(c, (n + 2) as nat);
        }
        let ab: u16 = midpoint_id(
            &mut ids,
            &mut next,
            a,
            b,
            Ghost(edges(c, n as nat)),
            Ghost(base as int),
        );
        let bd: u16 = midpoint_id(
            &mut ids,
            &mut next,
            b,
            d,
            Ghost(edges(c, (n + 1) as nat)),
            Ghost(base as int),
        );
        let da: u16 = midpoint_id(
            &mut ids,
            &mut next,
            d,
            a,
            Ghost(edges(c, (n + 2) as nat)),
            Ghost(base as int),
        );
        proof {
            midpoint_is_early_place(c, base as int, n, (n + 1) as nat);
            midpoint_is_early_place(c, base as int, n + 1, (n + 2) as nat);
            midpoint_is_early_place(c, base as int, n + 2, (n + 3) as nat);
        }
        let ghost before = out@;
        out.push([a, ab, da]);
        out.push([ab, b, bd]);
        out.push([da, bd, d]);
        out.push([ab, bd, da]);
        proof {
            assert forall|g: int, q: int, k: int|
                0 <= g < f + 1 && 0 <= q < 4 && 0 <= k < 3 implies (#[trigger] out[4 * g + q][k])
                as int == split_corner(c, base as int, g, 3 * q + k) by {
                if g < f {
                    assert(out[4 * g + q] == before[4 * g + q]);
                } else {
                    reveal(split_corner);
                    assert(4 * g + q - before.len() == q);
                }
            }
        }
        f += 1;
    }
    proof {
        let s = split(c, base as int);
        assert(corners(out@).len() == s.len());
        assert forall|i: int| 0 <= i < s.len() implies corners(out@)[i] == s[i] by {
            let g = i / 12;
            let e = i % 12;
            assert(i / 3 == 4 * g + e / 3 && i % 3 == e % 3) by {
                assert(i == 3 * (4 * g + e / 3) + e % 3);
            }
            assert(out[4 * g + e / 3][e % 3] as int == split_corner(
                c,
                base as int,
                g,
                3 * (e / 3) + e % 3,
            ));
        }
        assert(corners(out@) =~= s);
    }
    (out, next)
}

/// A split leaves no hole: the three outer triangles keep the corners of the
/// face and its direction of turning, and the inner one runs along each of their
/// inner sides the other way.
pub proof fn splits_leave_no_hole(c: Seq<int>, base: int, f: int)
    requires
        0 <= f,
        3 * f + 2 < c.len(),
    ensures
        ({
            let s = split(c, base);
            let at = 12 * f;
            &&& s.len() == 4 * c.len()
            &&& s[at] == c[3 * f] && s[at + 4] == c[3 * f + 1] && s[at + 8] == c[3 * f + 2]
            &&& s[at + 1] == midpoint(c, base, 3 * f) && s[at + 5] == midpoint(c, base, 3 * f + 1)
                && s[at + 6] == midpoint(c, base, 3 * f + 2)
            &&& s[at + 1] == s[at + 3] && s[at + 5] == s[at + 7] && s[at + 6] == s[at + 2]
            &&& s[at + 2] == s[at + 11] && s[at + 1] == s[at + 9]
            &&& s[at + 3] == s[at + 9] && s[at + 5] == s[at + 10]
            &&& s[at + 7] == s[at + 10] && s[at + 6] == s[at + 11]
        }),
{
    reveal(split_corner);
    let s = split(c, base);
    let at = 12 * f;
    assert forall|e: int| 0 <= e < 12 implies #[trigger] s[at + e] == split_corner(c, base, f, e) by {
        assert((at + e) / 12 == f && (at + e) % 12 == e);
    }
    assert(s[at] == s[at + 0]);
}

/// Faces that meet at an edge meet at its middle as well, and different edges
/// have different middles: each is a new vertex.
pub proof fn edges_have_one_middle(c: Seq<int>, base: int, i: int, j: int)
    requires
        vertices_below(c, base),
        0 <= i < c.len(),
        0 <= j < c.len(),
    ensures
        midpoint(c, base, i) == midpoint(c, base, j) <==> (c[i] == c[j] && c[next_corner(i)]
            == c[next_corner(j)] || c[i] == c[next_corner(j)] && c[next_corner(i)] == c[j]),
        base <= midpoint(c, base, i) < base + all_edges(c).len(),
{
    reveal(midpoint);
    reveal(vertices_below);
    edges_facts(c, c.len());
    let e = all_edges(c);
    assert(e.contains(edge_key(c, i)) && e.contains(edge_key(c, j)));
    e.index_of_first_ensures(edge_key(c, i));
    let (a, b, x, y) = (c[i], c[next_corner(i)], c[j], c[next_corner(j)]);
    let n = c.len() as int;
    assert(n == 3 * (n / 3) && i == 3 * (i / 3) + i % 3 && j == 3 * (j / 3) + j % 3);
    assert(0 <= next_corner(i) < c.len() && 0 <= next_corner(j) < c.len());
    assert(0 <= a < 65536 && 0 <= b < 65536 && 0 <= x < 65536 && 0 <= y < 65536);
    assert(edge_key(c, i) == edge_key(c, j) <==> (a == x && b == y || a == y && b == x));
    let p = e.index_of(edge_key(c, i));
    let q = e.index_of(edge_key(c, j));
    assert(e[p] == edge_key(c, i) && e[q] == edge_key(c, j));
}

} // verus!
