//! Merging of the aircraft's parts into one vertex stream and one index list.
//!
//! All opaque parts draw in one call, glass in a second. Each vertex carries
//! its node and material, and the shadow casters of each node form one
//! contiguous range of indices.
use crate::plane;
use crate::plane::{mat_index, node_index, MatId, Node};
use vstd::prelude::*;

verus! {

/// One vertex, with its numbers in the bit patterns that the GPU reads.
#[derive(Clone, Copy, Debug, PartialEq, Eq)]
pub struct VertexBits {
    /// Position, as single precision bits.
    pub pos: [u32; 3],
    /// Octahedral normal.
    pub oct: [u16; 2],
    /// Texture coordinates, as half precision bits.
    pub uv: [u16; 2],
    /// Flex weight, as single precision bits.
    pub flex: u32,
}

/// One part of the aircraft: triangles over vertices of its own.
pub struct MeshPart {
    pub node: Node,
    pub mat: MatId,
    pub verts: Vec<VertexBits>,
    pub idx: Vec<u32>,
}

/// Triangles of a node that cast shadows: a range of the caster indices.
#[derive(Clone, Copy, Debug, PartialEq, Eq, Structural)]
pub struct CasterRange {
    pub node: u32,
    pub first: u32,
    pub count: u32,
}

/// The merged aircraft.
pub struct Merged {
    /// Vertices, `VERTEX_BYTES` each.
    pub stream: Vec<u8>,
    /// Opaque indices, then glass.
    pub indices: Vec<u16>,
    pub opaque_count: u32,
    pub glass_count: u32,
    /// Indices of the shadow casters, node after node.
    pub caster_indices: Vec<u16>,
    pub casters: Vec<CasterRange>,
    pub triangles: u32,
}

// ---------------------------------------------------------------------------
// Model
// ---------------------------------------------------------------------------

/// Little-endian bytes of a 16-bit number.
pub open spec fn le16(x: u16) -> Seq<u8> {
    seq![(x % 256) as u8, (x / 256) as u8]
}

/// Little-endian bytes of a 32-bit number.
pub open spec fn le32(x: u32) -> Seq<u8> {
    seq![
        (x % 256) as u8,
        ((x / 0x100) % 256) as u8,
        ((x / 0x1_0000) % 256) as u8,
        (x / 0x100_0000) as u8,
    ]
}

/// Bytes of one vertex: position, normal, texture coordinates, flex, node and
/// material.
pub open spec fn vertex_bytes(v: VertexBits, node: u16, mat: u16) -> Seq<u8> {
    le32(v.pos[0]) + le32(v.pos[1]) + le32(v.pos[2]) + le16(v.oct[0]) + le16(v.oct[1]) + le16(
        v.uv[0],
    ) + le16(v.uv[1]) + le32(v.flex) + le16(node) + le16(mat)
}

/// Bytes of the first `n` vertices of a part.
pub open spec fn part_bytes(p: MeshPart, n: nat) -> Seq<u8>
    decreases n,
{
    if n == 0 {
        Seq::empty()
    } else {
        part_bytes(p, (n - 1) as nat) + vertex_bytes(
            p.verts[n - 1],
            plane::node_place(p.node) as u16,
            plane::material_number(p.mat),
        )
    }
}

/// Vertices of the first `n` parts.
pub open spec fn vertex_base(parts: Seq<MeshPart>, n: nat) -> nat
    decreases n,
{
    if n == 0 {
        0
    } else {
        vertex_base(parts, (n - 1) as nat) + parts[n - 1].verts@.len()
    }
}

/// Vertex stream of the first `n` parts.
pub open spec fn stream(parts: Seq<MeshPart>, n: nat) -> Seq<u8>
    decreases n,
{
    if n == 0 {
        Seq::empty()
    } else {
        stream(parts, (n - 1) as nat) + part_bytes(parts[n - 1], parts[n - 1].verts@.len())
    }
}

/// Indices of a part in the merged stream.
pub open spec fn placed(p: MeshPart, base: nat) -> Seq<u16> {
    p.idx@.map_values(|i: u32| (base + i) as u16)
}

/// Indices of those of the first `n` parts that `keep` picks, in order.
pub open spec fn picked(parts: Seq<MeshPart>, keep: spec_fn(MeshPart) -> bool, n: nat) -> Seq<u16>
    decreases n,
{
    if n == 0 {
        Seq::empty()
    } else {
        let before = picked(parts, keep, (n - 1) as nat);
        if keep(parts[n - 1]) {
            before + placed(parts[n - 1], vertex_base(parts, (n - 1) as nat))
        } else {
            before
        }
    }
}

/// Parts that draw in the first call.
pub open spec fn opaque_parts() -> spec_fn(MeshPart) -> bool {
    |p: MeshPart| p.mat != MatId::Glass
}

/// Parts that draw in the second call.
pub open spec fn glass_parts() -> spec_fn(MeshPart) -> bool {
    |p: MeshPart| p.mat == MatId::Glass
}

/// Parts of a node that cast shadows. Glass never casts a hard shadow.
pub open spec fn caster_parts(node: int) -> spec_fn(MeshPart) -> bool {
    |p: MeshPart| p.mat != MatId::Glass && plane::node_place(p.node) == node
}

/// Caster indices of a node.
pub open spec fn node_casters(parts: Seq<MeshPart>, node: int) -> Seq<u16> {
    picked(parts, caster_parts(node), parts.len())
}

/// Caster indices of the first `n` nodes.
pub open spec fn casters_to(parts: Seq<MeshPart>, n: nat) -> Seq<u16>
    decreases n,
{
    if n == 0 {
        Seq::empty()
    } else {
        casters_to(parts, (n - 1) as nat) + node_casters(parts, n - 1)
    }
}

/// Ranges of those of the first `n` nodes that cast shadows.
pub open spec fn ranges_to(parts: Seq<MeshPart>, n: nat) -> Seq<CasterRange>
    decreases n,
{
    if n == 0 {
        Seq::empty()
    } else {
        let before = ranges_to(parts, (n - 1) as nat);
        let idx = node_casters(parts, n - 1);
        if idx.len() == 0 {
            before
        } else {
            before.push(
                CasterRange {
                    node: (n - 1) as u32,
                    first: casters_to(parts, (n - 1) as nat).len() as u32,
                    count: idx.len() as u32,
                },
            )
        }
    }
}

/// Triangles of the first `n` parts.
pub open spec fn triangle_count(parts: Seq<MeshPart>, n: nat) -> nat
    decreases n,
{
    if n == 0 {
        0
    } else {
        triangle_count(parts, (n - 1) as nat) + parts[n - 1].idx@.len() / 3
    }
}

/// Indices of the first `n` parts.
pub open spec fn index_total(parts: Seq<MeshPart>, n: nat) -> nat
    decreases n,
{
    if n == 0 {
        0
    } else {
        index_total(parts, (n - 1) as nat) + parts[n - 1].idx@.len()
    }
}

/// Parts that can be merged: their indices name vertices of their own, their
/// nodes exist, and all vertices can be named by 16 bits.
pub open spec fn mergeable(parts: Seq<MeshPart>) -> bool {
    &&& vertex_base(parts, parts.len()) <= 65536
    &&& index_total(parts, parts.len()) <= u32::MAX
    &&& forall|k: int| 0 <= k < parts.len() ==> plane::node_exists((#[trigger] parts[k]).node)
    &&& forall|k: int, j: int|
        0 <= k < parts.len() && 0 <= j < parts[k].idx@.len() ==> (#[trigger] parts[k].idx@[j])
            < parts[k].verts@.len()
}

// ---------------------------------------------------------------------------
// Facts
// ---------------------------------------------------------------------------

proof fn base_grows(parts: Seq<MeshPart>, m: nat, n: nat)
    requires
        m <= n <= parts.len(),
    ensures
        vertex_base(parts, m) <= vertex_base(parts, n),
        index_total(parts, m) <= index_total(parts, n),
        triangle_count(parts, n) <= index_total(parts, n),
    decreases n,
{
    if m < n {
        base_grows(parts, m, (n - 1) as nat);
    } else if n > 0 {
        base_grows(parts, (n - 1) as nat, (n - 1) as nat);
    }
}

proof fn part_bytes_len(p: MeshPart, n: nat)
    ensures
        part_bytes(p, n).len() == 28 * n,
    decreases n,
{
    if n > 0 {
        part_bytes_len(p, (n - 1) as nat);
    }
}

proof fn stream_len(parts: Seq<MeshPart>, n: nat)
    requires
        n <= parts.len(),
    ensures
        stream(parts, n).len() == 28 * vertex_base(parts, n),
    decreases n,
{
    if n > 0 {
        stream_len(parts, (n - 1) as nat);
        part_bytes_len(parts[n - 1], parts[n - 1].verts@.len());
    }
}

proof fn picked_facts(parts: Seq<MeshPart>, keep: spec_fn(MeshPart) -> bool, n: nat)
    requires
        mergeable(parts),
        n <= parts.len(),
    ensures
        picked(parts, keep, n).len() <= index_total(parts, n),
        forall|i: int|
            0 <= i < picked(parts, keep, n).len() ==> (#[trigger] picked(parts, keep, n)[i])
                < vertex_base(parts, n),
    decreases n,
{
    if n > 0 {
        let m = (n - 1) as nat;
        picked_facts(parts, keep, m);
        base_grows(parts, n, parts.len());
        let p = parts[n - 1];
        let base = vertex_base(parts, m);
        let now = picked(parts, keep, n);
        let before = picked(parts, keep, m);
        assert forall|i: int| 0 <= i < now.len() implies (#[trigger] now[i]) < vertex_base(
            parts,
            n,
        ) by {
            if i >= before.len() {
                let j = i - before.len();
                assert(p.idx@[j] < p.verts@.len());
                assert(now[i] == (base + p.idx@[j]) as u16);
            }
        }
    }
}

/// Every index of the merged mesh names a vertex of the stream.
pub proof fn merged_indices_are_in_range(
    parts: Seq<MeshPart>,
    keep: spec_fn(MeshPart) -> bool,
    i: int,
)
    requires
        mergeable(parts),
        0 <= i < picked(parts, keep, parts.len()).len(),
    ensures
        28 * (picked(parts, keep, parts.len())[i] + 1) <= stream(parts, parts.len()).len(),
{
    picked_facts(parts, keep, parts.len());
    stream_len(parts, parts.len());
}

/// Indices of the first `n` parts fall into three kinds.
proof fn opaque_and_glass(parts: Seq<MeshPart>, n: nat)
    requires
        n <= parts.len(),
    ensures
        picked(parts, opaque_parts(), n).len() + picked(parts, glass_parts(), n).len()
            == index_total(parts, n),
    decreases n,
{
    if n > 0 {
        opaque_and_glass(parts, (n - 1) as nat);
    }
}

/// Nothing is lost: each index is drawn in exactly one of the two calls.
pub proof fn each_index_is_drawn_once(parts: Seq<MeshPart>)
    ensures
        picked(parts, opaque_parts(), parts.len()).len() + picked(
            parts,
            glass_parts(),
            parts.len(),
        ).len() == index_total(parts, parts.len()),
{
    opaque_and_glass(parts, parts.len());
}

/// Caster indices of the nodes below `nodes` in the first `n` parts.
spec fn caster_sum(parts: Seq<MeshPart>, nodes: nat, n: nat) -> nat
    decreases nodes,
{
    if nodes == 0 {
        0
    } else {
        caster_sum(parts, (nodes - 1) as nat, n) + picked(parts, caster_parts(nodes - 1), n).len()
    }
}

proof fn caster_sum_step(parts: Seq<MeshPart>, nodes: nat, n: nat)
    requires
        0 < n <= parts.len(),
    ensures
        caster_sum(parts, nodes, n) == caster_sum(parts, nodes, (n - 1) as nat) + if parts[n
            - 1].mat != MatId::Glass && plane::node_place(parts[n - 1].node) < nodes {
            parts[n - 1].idx@.len()
        } else {
            0
        },
    decreases nodes,
{
    if nodes > 0 {
        caster_sum_step(parts, (nodes - 1) as nat, n);
    }
}

proof fn caster_sum_empty(parts: Seq<MeshPart>, nodes: nat)
    ensures
        caster_sum(parts, nodes, 0) == 0,
    decreases nodes,
{
    if nodes > 0 {
        caster_sum_empty(parts, (nodes - 1) as nat);
    }
}

proof fn caster_sum_total(parts: Seq<MeshPart>, n: nat)
    requires
        mergeable(parts),
        n <= parts.len(),
    ensures
        caster_sum(parts, 23, n) == picked(parts, opaque_parts(), n).len(),
    decreases n,
{
    if n == 0 {
        caster_sum_empty(parts, 23);
    } else {
        caster_sum_total(parts, (n - 1) as nat);
        caster_sum_step(parts, 23, n);
        assert(plane::node_exists(parts[n - 1].node));
        plane::nodes_have_distinct_places(parts[n - 1].node, parts[n - 1].node);
    }
}

proof fn casters_len(parts: Seq<MeshPart>, nodes: nat)
    ensures
        casters_to(parts, nodes).len() == caster_sum(parts, nodes, parts.len()),
    decreases nodes,
{
    if nodes > 0 {
        casters_len(parts, (nodes - 1) as nat);
    }
}

proof fn casters_grow(parts: Seq<MeshPart>, m: nat, n: nat)
    requires
        m <= n,
    ensures
        casters_to(parts, m).len() <= casters_to(parts, n).len(),
    decreases n,
{
    if m < n {
        casters_grow(parts, m, (n - 1) as nat);
    }
}

/// The shadow casters are the opaque triangles: as many indices, sorted by
/// node.
pub proof fn casters_are_the_opaque_parts(parts: Seq<MeshPart>)
    requires
        mergeable(parts),
    ensures
        casters_to(parts, 23).len() == picked(parts, opaque_parts(), parts.len()).len(),
{
    casters_len(parts, 23);
    caster_sum_total(parts, parts.len());
}

/// The caster ranges are laid end to end without a gap, in the order of their
/// nodes, and cover all caster indices.
pub proof fn caster_ranges_are_contiguous(parts: Seq<MeshPart>, nodes: nat)
    requires
        mergeable(parts),
        nodes <= 23,
    ensures
        ({
            let ranges = ranges_to(parts, nodes);
            &&& forall|i: int|
                0 <= i < ranges.len() ==> (#[trigger] ranges[i]).count > 0 && ranges[i].node < nodes
            &&& ranges.len() > 0 ==> ranges[0].first == 0
            &&& forall|i: int, j: int|
                0 <= i && j == i + 1 && j < ranges.len() ==> (#[trigger] ranges[j]).first == (
                #[trigger] ranges[i]).first + ranges[i].count && ranges[i].node < ranges[j].node
            &&& ranges.len() > 0 ==> ranges.last().first + ranges.last().count == casters_to(
                parts,
                nodes,
            ).len()
            &&& ranges.len() == 0 ==> casters_to(parts, nodes).len() == 0
        }),
    decreases nodes,
{
    if nodes > 0 {
        let below = (nodes - 1) as nat;
        caster_ranges_are_contiguous(parts, below);
        casters_grow(parts, nodes, 23);
        casters_are_the_opaque_parts(parts);
        opaque_and_glass(parts, parts.len());
        let before = ranges_to(parts, below);
        let now = ranges_to(parts, nodes);
        let idx = node_casters(parts, nodes - 1);
        assert(casters_to(parts, nodes).len() <= u32::MAX);
        if idx.len() > 0 {
            assert(now.last().first == casters_to(parts, below).len());
            assert(now.last().count == idx.len());
            assert forall|i: int, j: int|
                0 <= i && j == i + 1 && j < now.len() implies (#[trigger] now[j]).first == (
            #[trigger] now[i]).first + now[i].count && now[i].node < now[j].node by {
                if j < before.len() {
                    assert(now[j] == before[j] && now[i] == before[i]);
                } else {
                    assert(now[i] == before.last());
                }
            }
        }
    }
}

// ---------------------------------------------------------------------------
// Merging
// ---------------------------------------------------------------------------

fn push_le16(out: &mut Vec<u8>, x: u16)
    ensures
        final(out)@ == old(out)@ + le16(x),
{
    out.push((x % 256) as u8);
    out.push((x / 256) as u8);
    assert(out@ =~= old(out)@ + le16(x));
}

fn push_le32(out: &mut Vec<u8>, x: u32)
    ensures
        final(out)@ == old(out)@ + le32(x),
{
    out.push((x % 256) as u8);
    out.push(((x / 0x100) % 256) as u8);
    out.push(((x / 0x1_0000) % 256) as u8);
    out.push((x / 0x100_0000) as u8);
    assert(out@ =~= old(out)@ + le32(x));
}

fn push_vertex(out: &mut Vec<u8>, v: &VertexBits, node: u16, mat: u16)
    ensures
        final(out)@ == old(out)@ + vertex_bytes(*v, node, mat),
{
    push_le32(out, v.pos[0]);
    push_le32(out, v.pos[1]);
    push_le32(out, v.pos[2]);
    push_le16(out, v.oct[0]);
    push_le16(out, v.oct[1]);
    push_le16(out, v.uv[0]);
    push_le16(out, v.uv[1]);
    push_le32(out, v.flex);
    push_le16(out, node);
    push_le16(out, mat);
    assert(out@ =~= old(out)@ + vertex_bytes(*v, node, mat));
}

fn push_part(out: &mut Vec<u8>, p: &MeshPart)
    requires
        plane::node_exists(p.node),
    ensures
        final(out)@ == old(out)@ + part_bytes(*p, p.verts@.len()),
{
    let node: u16 = node_index(p.node) as u16;
    let mat: u16 = mat_index(p.mat);
    let ghost before = out@;
    let mut j: usize = 0;
    assert(out@ =~= before + part_bytes(*p, 0));
    while j < p.verts.len()
        invariant
            j <= p.verts.len(),
            node == plane::node_place(p.node),
            mat == plane::material_number(p.mat),
            out@ == before + part_bytes(*p, j as nat),
        decreases p.verts.len() - j,
    {
        push_vertex(out, &p.verts[j], node, mat);
        assert(out@ =~= before + part_bytes(*p, (j + 1) as nat));
        j += 1;
    }
}

fn push_placed(out: &mut Vec<u16>, p: &MeshPart, base: u32)
    requires
        base + p.verts@.len() <= 65536,
        forall|j: int| 0 <= j < p.idx@.len() ==> (#[trigger] p.idx@[j]) < p.verts@.len(),
    ensures
        final(out)@ == old(out)@ + placed(*p, base as nat),
{
    let ghost before = out@;
    let ghost all = placed(*p, base as nat);
    let mut j: usize = 0;
    assert(out@ =~= before + all.take(0));
    while j < p.idx.len()
        invariant
            j <= p.idx.len(),
            base + p.verts@.len() <= 65536,
            forall|j: int| 0 <= j < p.idx@.len() ==> (#[trigger] p.idx@[j]) < p.verts@.len(),
            all == placed(*p, base as nat),
            out@ == before + all.take(j as int),
        decreases p.idx.len() - j,
    {
        let i: u32 = p.idx[j];
        assert(i < p.verts@.len());
        out.push((base + i) as u16);
        assert(all[j as int] == (base + i) as u16);
        assert(out@ =~= before + all.take(j + 1));
        j += 1;
    }
    assert(all.take(j as int) =~= all);
}

fn is_glass(mat: MatId) -> (r: bool)
    ensures
        r == (mat == MatId::Glass),
{
    match mat {
        MatId::Glass => true,
        _ => false,
    }
}

/// First vertex of each part in the merged stream.
fn part_bases(parts: &Vec<MeshPart>) -> (r: Vec<u32>)
    requires
        mergeable(parts@),
    ensures
        r.len() == parts.len(),
        forall|k: int| 0 <= k < r.len() ==> #[trigger] r[k] == vertex_base(parts@, k as nat),
{
    let mut out: Vec<u32> = Vec::new();
    let mut base: u32 = 0;
    let mut k: usize = 0;
    while k < parts.len()
        invariant
            mergeable(parts@),
            k <= parts.len(),
            out.len() == k,
            base == vertex_base(parts@, k as nat),
            forall|i: int| 0 <= i < k ==> #[trigger] out[i] == vertex_base(parts@, i as nat),
        decreases parts.len() - k,
    {
        proof {
            base_grows(parts@, (k + 1) as nat, parts@.len());
        }
        out.push(base);
        base = base + parts[k].verts.len() as u32;
        k += 1;
    }
    out
}

fn push_node_casters(out: &mut Vec<u16>, parts: &Vec<MeshPart>, bases: &Vec<u32>, node: usize)
    requires
        mergeable(parts@),
        bases.len() == parts.len(),
        forall|k: int|
            0 <= k < bases.len() ==> #[trigger] bases[k] == vertex_base(parts@, k as nat),
    ensures
        final(out)@ == old(out)@ + node_casters(parts@, node as int),
{
    let ghost before = out@;
    let ghost keep = caster_parts(node as int);
    let mut k: usize = 0;
    assert(out@ =~= before + picked(parts@, keep, 0));
    while k < parts.len()
        invariant
            mergeable(parts@),
            bases.len() == parts.len(),
            forall|k: int|
                0 <= k < bases.len() ==> #[trigger] bases[k] == vertex_base(parts@, k as nat),
            k <= parts.len(),
            keep == caster_parts(node as int),
            out@ == before + picked(parts@, keep, k as nat),
        decreases parts.len() - k,
    {
        let p: &MeshPart = &parts[k];
        proof {
            base_grows(parts@, (k + 1) as nat, parts@.len());
            assert(vertex_base(parts@, (k + 1) as nat) == vertex_base(parts@, k as nat)
                + p.verts@.len());
        }
        if !is_glass(p.mat) && node_index(p.node) == node {
            push_placed(out, p, bases[k]);
        }
        assert(out@ =~= before + picked(parts@, keep, (k + 1) as nat));
        k += 1;
    }
}

/// Merge the parts of the aircraft.
pub fn merge(parts: &Vec<MeshPart>) -> (r: Merged)
    requires
        mergeable(parts@),
    ensures
        r.stream@ == stream(parts@, parts@.len()),
        r.indices@ == picked(parts@, opaque_parts(), parts@.len()) + picked(
            parts@,
            glass_parts(),
            parts@.len(),
        ),
        r.opaque_count == picked(parts@, opaque_parts(), parts@.len()).len(),
        r.glass_count == picked(parts@, glass_parts(), parts@.len()).len(),
        r.caster_indices@ == casters_to(parts@, 23),
        r.casters@ == ranges_to(parts@, 23),
        r.triangles == triangle_count(parts@, parts@.len()),
{
    let bases: Vec<u32> = part_bases(parts);
    let mut bytes: Vec<u8> = Vec::new();
    let mut opaque: Vec<u16> = Vec::new();
    let mut glass: Vec<u16> = Vec::new();
    let mut triangles: u32 = 0;
    let mut k: usize = 0;
    while k < parts.len()
        invariant
            mergeable(parts@),
            bases.len() == parts.len(),
            forall|k: int|
                0 <= k < bases.len() ==> #[trigger] bases[k] == vertex_base(parts@, k as nat),
            k <= parts.len(),
            bytes@ == stream(parts@, k as nat),
            opaque@ == picked(parts@, opaque_parts(), k as nat),
            glass@ == picked(parts@, glass_parts(), k as nat),
            triangles == triangle_count(parts@, k as nat),
        decreases parts.len() - k,
    {
        let p: &MeshPart = &parts[k];
        proof {
            base_grows(parts@, (k + 1) as nat, parts@.len());
            assert(vertex_base(parts@, (k + 1) as nat) == vertex_base(parts@, k as nat)
                + p.verts@.len());
            base_grows(parts@, k as nat, k as nat);
        }
        push_part(&mut bytes, p);
        if is_glass(p.mat) {
            push_placed(&mut glass, p, bases[k]);
        } else {
            push_placed(&mut opaque, p, bases[k]);
        }
        triangles = triangles + (p.idx.len() / 3) as u32;
        k += 1;
    }
    proof {
        opaque_and_glass(parts@, parts@.len());
        casters_are_the_opaque_parts(parts@);
    }
    let mut caster_indices: Vec<u16> = Vec::new();
    let mut casters: Vec<CasterRange> = Vec::new();
    let mut n: usize = 0;
    while n < 23
        invariant
            mergeable(parts@),
            bases.len() == parts.len(),
            forall|k: int|
                0 <= k < bases.len() ==> #[trigger] bases[k] == vertex_base(parts@, k as nat),
            n <= 23,
            casters_to(parts@, 23).len() <= u32::MAX,
            caster_indices@ == casters_to(parts@, n as nat),
            casters@ == ranges_to(parts@, n as nat),
        decreases 23 - n,
    {
        let first: usize = caster_indices.len();
        push_node_casters(&mut caster_indices, parts, &bases, n);
        proof {
            casters_grow(parts@, (n + 1) as nat, 23);
        }
        let count: usize = caster_indices.len() - first;
        if count > 0 {
            casters.push(
                CasterRange { node: n as u32, first: first as u32, count: count as u32 },
            );
        }
        n += 1;
    }
    let opaque_count: u32 = opaque.len() as u32;
    let glass_count: u32 = glass.len() as u32;
    let mut indices: Vec<u16> = opaque;
    indices.append(&mut glass);
    Merged {
        stream: bytes,
        indices,
        opaque_count,
        glass_count,
        caster_indices,
        casters,
        triangles,
    }
}

// ---------------------------------------------------------------------------
// What a reader of the merged mesh finds
// ---------------------------------------------------------------------------

/// The 16-bit number at a byte of a stream, lowest byte first.
pub open spec fn short_at(s: Seq<u8>, at: int) -> int {
    s[at] + 0x100 * s[at + 1]
}

/// The 32-bit number at a byte of a stream, lowest byte first.
pub open spec fn word_at(s: Seq<u8>, at: int) -> int {
    s[at] + 0x100 * s[at + 1] + 0x1_0000 * s[at + 2] + 0x100_0000 * s[at + 3]
}

proof fn le16_reads(x: u16)
    ensures
        short_at(le16(x), 0) == x,
{
}

proof fn le32_reads(x: u32)
    ensures
        word_at(le32(x), 0) == x,
{
    let h = x / 0x100_0000;
    assert((x / 0x100) % 256 + 256 * (x / 0x1_0000) == x / 0x100);
    assert((x / 0x1_0000) % 256 + 256 * (x / 0x100_0000) == x / 0x1_0000);
}

/// A vertex at a place of a stream has these numbers.
pub open spec fn vertex_at(s: Seq<u8>, n: int, v: VertexBits, node: int, mat: int) -> bool {
    &&& word_at(s, 28 * n) == v.pos[0]
    &&& word_at(s, 28 * n + 4) == v.pos[1]
    &&& word_at(s, 28 * n + 8) == v.pos[2]
    &&& short_at(s, 28 * n + 12) == v.oct[0]
    &&& short_at(s, 28 * n + 14) == v.oct[1]
    &&& short_at(s, 28 * n + 16) == v.uv[0]
    &&& short_at(s, 28 * n + 18) == v.uv[1]
    &&& word_at(s, 28 * n + 20) == v.flex
    &&& short_at(s, 28 * n + 24) == node
    &&& short_at(s, 28 * n + 26) == mat
}

proof fn vertex_reads(v: VertexBits, node: u16, mat: u16)
    ensures
        vertex_bytes(v, node, mat).len() == 28,
        vertex_at(vertex_bytes(v, node, mat), 0, v, node as int, mat as int),
{
    le32_reads(v.pos[0]);
    le32_reads(v.pos[1]);
    le32_reads(v.pos[2]);
    le16_reads(v.oct[0]);
    le16_reads(v.oct[1]);
    le16_reads(v.uv[0]);
    le16_reads(v.uv[1]);
    le32_reads(v.flex);
    le16_reads(node);
    le16_reads(mat);
}

proof fn part_bytes_at(p: MeshPart, n: nat, j: int, b: int)
    requires
        0 <= j < n,
        0 <= b < 28,
    ensures
        part_bytes(p, n)[28 * j + b] == vertex_bytes(
            p.verts[j],
            plane::node_place(p.node) as u16,
            plane::material_number(p.mat),
        )[b],
    decreases n,
{
    part_bytes_len(p, (n - 1) as nat);
    if j < n - 1 {
        part_bytes_at(p, (n - 1) as nat, j, b);
    }
}

proof fn stream_at(parts: Seq<MeshPart>, n: nat, k: int, i: int)
    requires
        0 <= k < n <= parts.len(),
        0 <= i < 28 * parts[k].verts@.len(),
    ensures
        stream(parts, n)[28 * vertex_base(parts, k as nat) + i] == part_bytes(
            parts[k],
            parts[k].verts@.len(),
        )[i],
        28 * vertex_base(parts, k as nat) + i < stream(parts, n).len(),
    decreases n,
{
    let m = (n - 1) as nat;
    stream_len(parts, m);
    part_bytes_len(parts[n - 1], parts[n - 1].verts@.len());
    if k < m {
        stream_at(parts, m, k, i);
    }
}

/// Each vertex of each part can be read from the stream, behind those of the
/// parts before it, with the node and the material of its part.
pub proof fn vertices_stand_in_order(parts: Seq<MeshPart>, k: int, j: int)
    requires
        mergeable(parts),
        0 <= k < parts.len(),
        0 <= j < parts[k].verts@.len(),
    ensures
        vertex_at(
            stream(parts, parts.len()),
            vertex_base(parts, k as nat) + j,
            parts[k].verts[j],
            plane::node_place(parts[k].node),
            plane::material_number(parts[k].mat) as int,
        ),
{
    let p = parts[k];
    let n = p.verts@.len();
    let s = stream(parts, parts.len());
    let base = vertex_base(parts, k as nat);
    assert(plane::node_exists(p.node));
    plane::nodes_have_distinct_places(p.node, p.node);
    let one = vertex_bytes(
        p.verts[j],
        plane::node_place(p.node) as u16,
        plane::material_number(p.mat),
    );
    vertex_reads(
        p.verts[j],
        plane::node_place(p.node) as u16,
        plane::material_number(p.mat),
    );
    let at = 28 * (base + j);
    assert forall|b: int| 0 <= b < 28 implies #[trigger] s[at + b] == one[b] by {
        part_bytes_at(p, n, j, b);
        stream_at(parts, parts.len(), k, 28 * j + b);
    }
    assert(s[at] == s[at + 0]);
    word_moved(s, one, at, 0);
    word_moved(s, one, at, 4);
    word_moved(s, one, at, 8);
    word_moved(s, one, at, 20);
    short_moved(s, one, at, 12);
    short_moved(s, one, at, 14);
    short_moved(s, one, at, 16);
    short_moved(s, one, at, 18);
    short_moved(s, one, at, 24);
    short_moved(s, one, at, 26);
}

proof fn word_moved(s: Seq<u8>, one: Seq<u8>, at: int, b: int)
    requires
        0 <= b <= 24,
        forall|b: int| 0 <= b < 28 ==> #[trigger] s[at + b] == one[b],
    ensures
        word_at(s, at + b) == word_at(one, b),
{
    assert(s[at + b] == one[b]);
    assert(s[at + (b + 1)] == one[b + 1]);
    assert(s[at + (b + 2)] == one[b + 2]);
    assert(s[at + (b + 3)] == one[b + 3]);
}

proof fn short_moved(s: Seq<u8>, one: Seq<u8>, at: int, b: int)
    requires
        0 <= b <= 26,
        forall|b: int| 0 <= b < 28 ==> #[trigger] s[at + b] == one[b],
    ensures
        short_at(s, at + b) == short_at(one, b),
{
    assert(s[at + b] == one[b]);
    assert(s[at + (b + 1)] == one[b + 1]);
}

/// Part and corner that an index of the merged mesh comes from.
proof fn picked_from(
    parts: Seq<MeshPart>,
    keep: spec_fn(MeshPart) -> bool,
    n: nat,
    q: int,
) -> (r: (int, int))
    requires
        mergeable(parts),
        n <= parts.len(),
        0 <= q < picked(parts, keep, n).len(),
    ensures
        0 <= r.0 < n,
        keep(parts[r.0]),
        0 <= r.1 < parts[r.0].idx@.len(),
        q == picked(parts, keep, r.0 as nat).len() + r.1,
        picked(parts, keep, n)[q] == vertex_base(parts, r.0 as nat) + parts[r.0].idx@[r.1],
    decreases n,
{
    let m = (n - 1) as nat;
    let old = picked(parts, keep, m);
    if q < old.len() {
        picked_from(parts, keep, m, q)
    } else {
        let j = q - old.len();
        let p = parts[m as int];
        assert(keep(p));
        base_grows(parts, n, parts.len());
        assert(p.idx@[j] < p.verts@.len());
        (m as int, j)
    }
}

proof fn picked_at(
    parts: Seq<MeshPart>,
    keep: spec_fn(MeshPart) -> bool,
    n: nat,
    k: int,
    j: int,
)
    requires
        mergeable(parts),
        0 <= k < n <= parts.len(),
        keep(parts[k]),
        0 <= j < parts[k].idx@.len(),
    ensures
        picked(parts, keep, k as nat).len() + j < picked(parts, keep, n).len(),
        picked(parts, keep, n)[picked(parts, keep, k as nat).len() + j] == vertex_base(
            parts,
            k as nat,
        ) + parts[k].idx@[j],
    decreases n,
{
    let m = (n - 1) as nat;
    if k < m {
        picked_at(parts, keep, m, k, j);
    } else {
        base_grows(parts, n, parts.len());
        assert(parts[k].idx@[j] < parts[k].verts@.len());
    }
}

/// Each corner of a triangle that is picked stands in the merged list, behind
/// those of the parts before it, and names the vertex that it named in its part.
pub proof fn corners_keep_their_vertices(
    parts: Seq<MeshPart>,
    keep: spec_fn(MeshPart) -> bool,
    k: int,
    j: int,
)
    requires
        mergeable(parts),
        0 <= k < parts.len(),
        keep(parts[k]),
        0 <= j < parts[k].idx@.len(),
    ensures
        ({
            let merged = picked(parts, keep, parts.len());
            let q = picked(parts, keep, k as nat).len() + j;
            &&& q < merged.len()
            &&& vertex_at(
                stream(parts, parts.len()),
                merged[q] as int,
                parts[k].verts[parts[k].idx@[j] as int],
                plane::node_place(parts[k].node),
                plane::material_number(parts[k].mat) as int,
            )
        }),
{
    picked_at(parts, keep, parts.len(), k, j);
    assert(parts[k].idx@[j] < parts[k].verts@.len());
    vertices_stand_in_order(parts, k, parts[k].idx@[j] as int);
}

/// What the first call draws is not glass, what the second draws is, and each
/// index comes from a corner of a part of that kind.
pub proof fn calls_draw_their_materials(parts: Seq<MeshPart>, q: int)
    requires
        mergeable(parts),
    ensures
        ({
            let s = stream(parts, parts.len());
            let glass = plane::material_number(MatId::Glass) as int;
            let first = picked(parts, opaque_parts(), parts.len());
            let second = picked(parts, glass_parts(), parts.len());
            &&& 0 <= q < first.len() ==> short_at(s, 28 * first[q] + 26) != glass
            &&& 0 <= q < second.len() ==> short_at(s, 28 * second[q] + 26) == glass
        }),
{
    let (first, second) = (
        picked(parts, opaque_parts(), parts.len()),
        picked(parts, glass_parts(), parts.len()),
    );
    if 0 <= q < first.len() {
        let (k, j) = picked_from(parts, opaque_parts(), parts.len(), q);
        corners_keep_their_vertices(parts, opaque_parts(), k, j);
        assert(parts[k].mat != MatId::Glass);
    }
    if 0 <= q < second.len() {
        let (k, j) = picked_from(parts, glass_parts(), parts.len(), q);
        corners_keep_their_vertices(parts, glass_parts(), k, j);
    }
}

proof fn range_holds(parts: Seq<MeshPart>, nodes: nat, r: int, i: int)
    requires
        mergeable(parts),
        nodes <= 23,
        0 <= r < ranges_to(parts, nodes).len(),
        ranges_to(parts, nodes)[r].first <= i < ranges_to(parts, nodes)[r].first + ranges_to(
            parts,
            nodes,
        )[r].count,
    ensures
        ({
            let range = ranges_to(parts, nodes)[r];
            let own = node_casters(parts, range.node as int);
            &&& i < casters_to(parts, nodes).len()
            &&& i - range.first < own.len()
            &&& casters_to(parts, nodes)[i] == own[i - range.first]
        }),
    decreases nodes,
{
    let below = (nodes - 1) as nat;
    let old = ranges_to(parts, below);
    casters_grow(parts, nodes, 23);
    casters_are_the_opaque_parts(parts);
    opaque_and_glass(parts, parts.len());
    if r < old.len() {
        assert(ranges_to(parts, nodes)[r] == old[r]);
        range_holds(parts, below, r, i);
    } else {
        let own = node_casters(parts, nodes - 1);
        let range = ranges_to(parts, nodes)[r];
        assert(range.first == casters_to(parts, below).len());
        assert(range.count == own.len());
        assert(casters_to(parts, nodes)[i] == own[i - range.first]);
    }
}

/// The casters of a range belong to its node, and none of them is glass.
pub proof fn casters_belong_to_their_node(parts: Seq<MeshPart>, r: int, i: int)
    requires
        mergeable(parts),
        0 <= r < ranges_to(parts, 23).len(),
        ranges_to(parts, 23)[r].first <= i < ranges_to(parts, 23)[r].first + ranges_to(
            parts,
            23,
        )[r].count,
    ensures
        ({
            let s = stream(parts, parts.len());
            let v = casters_to(parts, 23)[i] as int;
            &&& short_at(s, 28 * v + 24) == ranges_to(parts, 23)[r].node
            &&& short_at(s, 28 * v + 26) != plane::material_number(MatId::Glass)
        }),
{
    range_holds(parts, 23, r, i);
    let range = ranges_to(parts, 23)[r];
    let keep = caster_parts(range.node as int);
    let (k, j) = picked_from(parts, keep, parts.len(), i - range.first);
    corners_keep_their_vertices(parts, keep, k, j);
    assert(parts[k].mat != MatId::Glass);
}

/// Where every part is made of whole triangles, a triangle is counted for every
/// three indices.
pub proof fn triangles_have_three_corners(parts: Seq<MeshPart>, n: nat)
    requires
        n <= parts.len(),
        forall|k: int| 0 <= k < parts.len() ==> (#[trigger] parts[k]).idx@.len() % 3 == 0,
    ensures
        3 * triangle_count(parts, n) == index_total(parts, n),
    decreases n,
{
    if n > 0 {
        triangles_have_three_corners(parts, (n - 1) as nat);
        assert(parts[n - 1].idx@.len() % 3 == 0);
    }
}

} // verus!
