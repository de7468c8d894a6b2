//! Layout of the aircraft renderer's data: node and material ids, the uniform
//! block, acceleration structure storage, the sail weave, and the material
//! shader variants.
use crate::gfx;
use crate::gfx::spv_words;
use vstd::prelude::*;

verus! {

/// Bytes of the uniform block of one frame slot.
pub const UBO_BYTES: usize = 1792;

/// Animated nodes of the aircraft.
pub const NODE_COUNT: usize = 23;

/// Bytes of one merged vertex.
pub const VERTEX_BYTES: usize = 28;

/// Floats at the end of the uniform block: flex, camera, sun and sky terms.
pub const UBO_TAIL_FLOATS: usize = 48;

/// Bytes of one ray tracing instance.
pub const RT_INSTANCE_BYTES: usize = 64;

// ---------------------------------------------------------------------------
// Nodes and materials
// ---------------------------------------------------------------------------

/// A part of the aircraft that moves as one.
#[derive(Clone, Copy, Debug, PartialEq, Eq, Structural)]
pub enum Node {
    Hull,
    Canopy,
    WingL,
    WingR,
    Flap(u8),
    Rotor,
    Petal(u8),
    Fin(u8),
}

/// A surface material.
#[derive(Clone, Copy, Debug, PartialEq, Eq, Structural)]
pub enum MatId {
    Sail,
    Composite,
    Graphite,
    Titanium,
    Dark,
    Seat,
    Glass,
    Glow,
}

/// A node that the aircraft has: six flaps, ten petals, two fins.
pub open spec fn node_exists(node: Node) -> bool {
    match node {
        Node::Flap(id) => id < 6,
        Node::Petal(i) => i < 10,
        Node::Fin(i) => i < 2,
        _ => true,
    }
}

/// Place of a node's matrix.
pub open spec fn node_place(node: Node) -> int {
    match node {
        Node::Hull => 0,
        Node::Canopy => 1,
        Node::WingL => 2,
        Node::WingR => 3,
        Node::Flap(id) => 4 + id,
        Node::Rotor => 10,
        Node::Petal(i) => 11 + i,
        Node::Fin(i) => 21 + i,
    }
}

/// Place of a node's matrix.
pub fn node_index(node: Node) -> (r: usize)
    ensures
        r == node_place(node),
{
    match node {
        Node::Hull => 0,
        Node::Canopy => 1,
        Node::WingL => 2,
        Node::WingR => 3,
        Node::Flap(id) => 4 + id as usize,
        Node::Rotor => 10,
        Node::Petal(i) => 11 + i as usize,
        Node::Fin(i) => 21 + i as usize,
    }
}

/// Each node has a matrix of its own.
pub proof fn nodes_have_distinct_places(a: Node, b: Node)
    requires
        node_exists(a),
        node_exists(b),
    ensures
        0 <= node_place(a) < NODE_COUNT,
        node_place(a) == node_place(b) ==> a == b,
{
}

/// Number of a material in the shaders.
pub open spec fn material_number(mat: MatId) -> u16 {
    match mat {
        MatId::Sail => 0,
        MatId::Composite => 1,
        MatId::Graphite => 2,
        MatId::Titanium => 3,
        MatId::Dark => 4,
        MatId::Seat => 5,
        MatId::Glass => 6,
        MatId::Glow => 7,
    }
}

/// Number of a material in the shaders.
pub fn mat_index(mat: MatId) -> (r: u16)
    ensures
        r == material_number(mat),
{
    match mat {
        MatId::Sail => 0,
        MatId::Composite => 1,
        MatId::Graphite => 2,
        MatId::Titanium => 3,
        MatId::Dark => 4,
        MatId::Seat => 5,
        MatId::Glass => 6,
        MatId::Glow => 7,
    }
}

/// Materials have different numbers.
pub proof fn materials_have_distinct_numbers(a: MatId, b: MatId)
    ensures
        material_number(a) == material_number(b) ==> a == b,
{
}

/// Ray mask of a node: each wing with its flaps casts shadows of its own.
pub open spec fn shadow_mask(node: u32) -> u8 {
    if node == 2 || 4 <= node <= 6 {
        0x02
    } else if node == 3 || 7 <= node <= 9 {
        0x04
    } else {
        0x01
    }
}

/// Ray mask of a node.
pub fn caster_mask(node: u32) -> (r: u8)
    ensures
        r == shadow_mask(node),
{
    if node == 2 || (node >= 4 && node <= 6) {
        0x02
    } else if node == 3 || (node >= 7 && node <= 9) {
        0x04
    } else {
        0x01
    }
}

/// Rows of a 3x4 transform, from the columns of a 4x4 matrix. Only the order
/// changes, so that entries may be of any type.
pub fn instance_rows<T: Copy>(c: &[T; 16]) -> (r: [T; 12])
    ensures
        forall|row: int, col: int|
            0 <= row < 3 && 0 <= col < 4 ==> #[trigger] r[4 * row + col] == c[4 * col + row],
{
    let r = [c[0], c[4], c[8], c[12], c[1], c[5], c[9], c[13], c[2], c[6], c[10], c[14]];
    assert(forall|row: int, col: int|
        0 <= row < 3 && 0 <= col < 4 ==> #[trigger] r[4 * row + col] == c[4 * col + row]);
    r
}

/// First float of a node's matrix in the uniform block, after the
/// view-projection matrix and its inverse.
pub fn node_offset(node: usize) -> (r: usize)
    requires
        node < NODE_COUNT,
    ensures
        r == 32 + 16 * node,
        r + 16 <= 32 + 16 * NODE_COUNT,
{
    32 + 16 * node
}

/// First float of the tail of the uniform block.
pub fn tail_offset() -> (r: usize)
    ensures
        r == 32 + 16 * NODE_COUNT,
        4 * (r + UBO_TAIL_FLOATS) == UBO_BYTES,
{
    32 + 16 * NODE_COUNT
}

// ---------------------------------------------------------------------------
// Acceleration structure storage
// ---------------------------------------------------------------------------

/// The next multiple of 256.
pub open spec fn aligned(v: int) -> int {
    256 * ((v + 255) / 256)
}

/// Round an acceleration structure offset up to the 256-byte alignment
/// required by storage and device address rules.
pub fn align_256(v: u64) -> (r: u64)
    requires
        v + 255 <= u64::MAX,
    ensures
        r == aligned(v as int),
        r % 256 == 0,
        v <= r < v + 256,
{
    let x: u64 = v + 255;
    assert(x & !255 == 256 * (x / 256)) by (bit_vector);
    x & !255
}

/// End of a run of `n` blocks, each starting at a multiple of 256.
pub open spec fn packed_end(sizes: Seq<u64>, n: nat) -> int
    decreases n,
{
    if n == 0 {
        0
    } else {
        aligned(packed_end(sizes, (n - 1) as nat) + sizes[n - 1])
    }
}

proof fn packed_end_grows(sizes: Seq<u64>, m: nat, n: nat)
    requires
        m <= n <= sizes.len(),
    ensures
        0 <= packed_end(sizes, m) <= packed_end(sizes, n),
        packed_end(sizes, m) % 256 == 0,
    decreases n,
{
    if n > 0 {
        if m < n {
            packed_end_grows(sizes, m, (n - 1) as nat);
        } else {
            packed_end_grows(sizes, (n - 1) as nat, (n - 1) as nat);
        }
    }
}

/// Offsets of blocks in one buffer, and the size of that buffer.
pub fn pack_blocks(sizes: &Vec<u64>) -> (r: (Vec<u64>, u64))
    requires
        packed_end(sizes@, sizes@.len()) + 255 <= u64::MAX,
    ensures
        r.0.len() == sizes.len(),
        forall|i: int| 0 <= i < r.0.len() ==> #[trigger] r.0[i] == packed_end(sizes@, i as nat),
        r.1 == packed_end(sizes@, sizes@.len()),
{
    let mut offsets: Vec<u64> = Vec::new();
    let mut end: u64 = 0;
    let mut i: usize = 0;
    while i < sizes.len()
        invariant
            i <= sizes.len(),
            offsets.len() == i,
            end == packed_end(sizes@, i as nat),
            forall|k: int| 0 <= k < i ==> #[trigger] offsets[k] == packed_end(sizes@, k as nat),
            packed_end(sizes@, sizes@.len()) + 255 <= u64::MAX,
        decreases sizes.len() - i,
    {
        offsets.push(end);
        proof {
            packed_end_grows(sizes@, (i + 1) as nat, sizes@.len());
            assert(packed_end(sizes@, (i + 1) as nat) == aligned(end + sizes[i as int]));
        }
        end = align_256(end + sizes[i]);
        i += 1;
    }
    (offsets, end)
}

/// Blocks start at multiples of 256, do not overlap, and fit in the buffer.
pub proof fn blocks_do_not_overlap(sizes: Seq<u64>, i: nat, j: nat)
    requires
        i < j <= sizes.len(),
    ensures
        packed_end(sizes, i) % 256 == 0,
        0 <= packed_end(sizes, i),
        packed_end(sizes, i) + sizes[i as int] <= packed_end(sizes, j),
{
    packed_end_grows(sizes, i, i);
    packed_end_grows(sizes, i + 1, j);
}

// ---------------------------------------------------------------------------
// Sail weave
// ---------------------------------------------------------------------------

/// Side of the full weave.
pub const WEAVE_SIDE: u32 = 64;

/// One level of the weave in RGBA bytes.
pub struct WeaveLevel {
    pub side: u32,
    pub pixels: Vec<u8>,
}

/// Warm gray cloth with a fine grid, and heavier lines every sixteen pixels.
pub open spec fn weave_color(x: int, y: int, c: int) -> u8 {
    if c == 3 {
        0xFF
    } else if x % 16 == 0 || y % 16 == 0 {
        if c == 0 {
            0xAA
        } else if c == 1 {
            0xA9
        } else {
            0x9A
        }
    } else if x % 4 == 0 || y % 4 == 0 {
        if c == 0 {
            0xC3
        } else if c == 1 {
            0xBF
        } else {
            0xAF
        }
    } else {
        if c == 0 {
            0xDA
        } else if c == 1 {
            0xD6
        } else {
            0xC7
        }
    }
}

/// Side of a level of the weave.
pub open spec fn weave_side(level: nat) -> int
    decreases level,
{
    if level == 0 {
        WEAVE_SIDE as int
    } else {
        weave_side((level - 1) as nat) / 2
    }
}

/// Average of the four texels below a texel of the next level.
pub open spec fn boxed(prev: Seq<u8>, w: int, x: int, y: int, c: int) -> u8 {
    ((prev[((2 * y) * w + 2 * x) * 4 + c] + prev[((2 * y) * w + 2 * x + 1) * 4 + c] + prev[((2 * y
        + 1) * w + 2 * x) * 4 + c] + prev[((2 * y + 1) * w + 2 * x + 1) * 4 + c]) / 4) as u8
}

/// Bytes of a level of the weave: the pattern, then box filtered halves, so
/// that minification never aliases into static.
pub open spec fn weave_level(level: nat) -> Seq<u8>
    decreases level,
{
    let side = weave_side(level);
    if level == 0 {
        Seq::new(
            (4 * (side * side)) as nat,
            |i: int| weave_color((i / 4) % side, (i / 4) / side, i % 4),
        )
    } else {
        let prev = weave_level((level - 1) as nat);
        let w = weave_side((level - 1) as nat);
        Seq::new(
            (4 * (side * side)) as nat,
            |i: int| boxed(prev, w, (i / 4) % side, (i / 4) / side, i % 4),
        )
    }
}

proof fn box_in_range(n: int, x: int, y: int, c: int)
    requires
        0 <= x < n,
        0 <= y < n,
        0 <= c < 4,
    ensures
        0 <= ((2 * y) * (2 * n) + 2 * x) * 4 + c,
        ((2 * y) * (2 * n) + 2 * x) * 4 + c < 4 * ((2 * n) * (2 * n)),
        0 <= ((2 * y) * (2 * n) + 2 * x + 1) * 4 + c < 4 * ((2 * n) * (2 * n)),
        0 <= ((2 * y + 1) * (2 * n) + 2 * x) * 4 + c < 4 * ((2 * n) * (2 * n)),
        0 <= ((2 * y + 1) * (2 * n) + 2 * x + 1) * 4 + c < 4 * ((2 * n) * (2 * n)),
{
    let w = 2 * n;
    assert(0 <= (2 * y) * w) by (nonlinear_arith)
        requires
            0 <= y,
            0 <= w,
    ;
    assert((2 * y + 1) * w + w <= w * w) by (nonlinear_arith)
        requires
            2 * y + 2 <= w,
            0 <= w,
    ;
    assert((2 * y + 1) * w == (2 * y) * w + w) by (nonlinear_arith);
}

proof fn texel_in_range(side: int, p: int)
    requires
        side > 0,
        0 <= p < side * side,
    ensures
        0 <= p % side < side,
        0 <= p / side < side,
{
    vstd::arithmetic::div_mod::lemma_fundamental_div_mod(p, side);
    vstd::arithmetic::div_mod::lemma_mod_bound(p, side);
    assert(p / side < side) by (nonlinear_arith)
        requires
            p == side * (p / side) + p % side,
            0 <= p % side,
            p < side * side,
            side > 0,
    ;
    assert(0 <= p / side) by (nonlinear_arith)
        requires
            p == side * (p / side) + p % side,
            p % side < side,
            0 <= p,
            side > 0,
    ;
}

proof fn base_level()
    ensures
        weave_level(0).len() == 16384,
        forall|i: int|
            0 <= i < 16384 ==> #[trigger] weave_level(0)[i] == weave_color(
                (i / 4) % 64,
                (i / 4) / 64,
                i % 4,
            ),
{
    let side = weave_side(0);
    assert(side == 64);
    assert(4 * (side * side) == 16384) by (nonlinear_arith)
        requires
            side == 64,
    ;
}

fn base_weave() -> (r: Vec<u8>)
    ensures
        r@ == weave_level(0),
{
    let mut out: Vec<u8> = Vec::new();
    let mut i: u32 = 0;
    proof {
        base_level();
    }
    while i < 16384
        invariant
            i <= 16384,
            weave_level(0).len() == 16384,
            forall|k: int|
                0 <= k < 16384 ==> #[trigger] weave_level(0)[k] == weave_color(
                    (k / 4) % 64,
                    (k / 4) / 64,
                    k % 4,
                ),
            out@ == weave_level(0).take(i as int),
        decreases 16384 - i,
    {
        let p: u32 = i / 4;
        let x: u32 = p % 64;
        let y: u32 = p / 64;
        let c: u32 = i % 4;
        let v: u8 = if c == 3 {
            0xFF
        } else if x % 16 == 0 || y % 16 == 0 {
            if c == 0 {
                0xAA
            } else if c == 1 {
                0xA9
            } else {
                0x9A
            }
        } else if x % 4 == 0 || y % 4 == 0 {
            if c == 0 {
                0xC3
            } else if c == 1 {
                0xBF
            } else {
                0xAF
            }
        } else {
            if c == 0 {
                0xDA
            } else if c == 1 {
                0xD6
            } else {
                0xC7
            }
        };
        out.push(v);
        assert(out@ =~= weave_level(0).take(i + 1));
        i += 1;
    }
    assert(weave_level(0).take(16384) =~= weave_level(0));
    out
}

fn half_weave(prev: &Vec<u8>, side: u32, Ghost(level): Ghost<nat>) -> (r: Vec<u8>)
    requires
        0 < side <= 32,
        level > 0,
        weave_side(level) == side,
        weave_side((level - 1) as nat) == 2 * side,
        prev@ == weave_level((level - 1) as nat),
    ensures
        r@ == weave_level(level),
{
    let w: u32 = 2 * side;
    let mut out: Vec<u8> = Vec::new();
    assert(0 <= side * side <= 1024) by (nonlinear_arith)
        requires
            0 < side <= 32,
    ;
    let n: u32 = 4 * (side * side);
    let mut i: u32 = 0;
    while i < n
        invariant
            0 < side <= 32,
            w == 2 * side,
            n == 4 * (side * side),
            level > 0,
            weave_side(level) == side,
            weave_side((level - 1) as nat) == 2 * side,
            prev@ == weave_level((level - 1) as nat),
            prev@.len() == 4 * (w * w),
            i <= n,
            out@ == weave_level(level).take(i as int),
        decreases n - i,
    {
        let p: u32 = i / 4;
        proof {
            texel_in_range(side as int, p as int);
        }
        let x: u32 = p % side;
        let y: u32 = p / side;
        let c: u32 = i % 4;
        proof {
            box_in_range(side as int, x as int, y as int, c as int);
            assert(0 <= (2 * y + 1) * w <= 4096) by (nonlinear_arith)
                requires
                    0 <= y < 32,
                    0 <= w <= 64,
            ;
            assert(0 <= (2 * y) * w <= 4096) by (nonlinear_arith)
                requires
                    0 <= y < 32,
                    0 <= w <= 64,
            ;
        }
        let a: u32 = prev[(((2 * y) * w + 2 * x) * 4 + c) as usize] as u32;
        let b: u32 = prev[(((2 * y) * w + 2 * x + 1) * 4 + c) as usize] as u32;
        let d: u32 = prev[(((2 * y + 1) * w + 2 * x) * 4 + c) as usize] as u32;
        let e: u32 = prev[(((2 * y + 1) * w + 2 * x + 1) * 4 + c) as usize] as u32;
        out.push(((a + b + d + e) / 4) as u8);
        assert(out@ =~= weave_level(level).take(i + 1));
        i += 1;
    }
    assert(weave_level(level).take(n as int) =~= weave_level(level));
    out
}

/// Sail cloth weave with all mip levels, down to a single texel.
pub fn weave_mips() -> (r: Vec<WeaveLevel>)
    ensures
        r.len() == 7,
        r[6].side == 1,
        forall|k: int|
            0 <= k < r.len() ==> (#[trigger] r[k]).side == weave_side(k as nat) && r[k].pixels@
                == weave_level(k as nat),
{
    proof {
        reveal_with_fuel(weave_side, 8);
    }
    let mut out: Vec<WeaveLevel> = Vec::new();
    out.push(WeaveLevel { side: WEAVE_SIDE, pixels: base_weave() });
    let mut side: u32 = 64;
    let mut k: usize = 0;
    while side > 1
        invariant
            k < 7,
            out.len() == k + 1,
            side == weave_side(k as nat),
            side == (if k == 0 {
                64int
            } else if k == 1 {
                32
            } else if k == 2 {
                16
            } else if k == 3 {
                8
            } else if k == 4 {
                4
            } else if k == 5 {
                2
            } else {
                1
            }),
            forall|j: int|
                0 <= j < out.len() ==> (#[trigger] out[j]).side == weave_side(j as nat)
                    && out[j].pixels@ == weave_level(j as nat),
        decreases side,
    {
        assert(weave_side((k + 1) as nat) == side / 2);
        let half: u32 = side / 2;
        let next: Vec<u8> = half_weave(&out[k].pixels, half, Ghost((k + 1) as nat));
        out.push(WeaveLevel { side: half, pixels: next });
        side = half;
        k += 1;
    }
    out
}

/// The weave is opaque on every level.
pub proof fn weave_is_opaque(level: nat, p: int)
    requires
        level <= 6,
        0 <= p < weave_side(level) * weave_side(level),
    ensures
        weave_level(level)[4 * p + 3] == 0xFF,
    decreases level,
{
    reveal_with_fuel(weave_side, 8);
    let side = weave_side(level);
    let i = 4 * p + 3;
    assert(i / 4 == p && i % 4 == 3);
    if level > 0 {
        let below = (level - 1) as nat;
        let w = weave_side(below);
        assert(w == 2 * side);
        texel_in_range(side, p);
        let x = p % side;
        let y = p / side;
        box_in_range(side, x, y, 3);
        weave_is_opaque(below, (2 * y) * w + 2 * x);
        weave_is_opaque(below, (2 * y) * w + 2 * x + 1);
        weave_is_opaque(below, (2 * y + 1) * w + 2 * x);
        weave_is_opaque(below, (2 * y + 1) * w + 2 * x + 1);
    }
}

/// Where a level stands among the staged bytes.
#[derive(Clone, Copy, Debug, PartialEq, Eq, Structural)]
pub struct LevelCopy {
    pub offset: usize,
    pub level: u32,
    pub side: u32,
}

/// Levels one behind the other, to be copied into an image.
pub struct StagedWeave {
    pub bytes: Vec<u8>,
    pub copies: Vec<LevelCopy>,
}

/// Bytes of the first `n` levels.
pub open spec fn staged_bytes(levels: Seq<WeaveLevel>, n: nat) -> Seq<u8>
    decreases n,
{
    if n == 0 {
        Seq::empty()
    } else {
        staged_bytes(levels, (n - 1) as nat) + levels[n - 1].pixels@
    }
}

/// Put the levels one behind the other.
pub fn stage_weave(levels: &Vec<WeaveLevel>) -> (r: StagedWeave)
    requires
        levels.len() <= u32::MAX,
    ensures
        r.bytes@ == staged_bytes(levels@, levels@.len()),
        r.copies@ == Seq::new(
            levels@.len(),
            |i: int|
                LevelCopy {
                    offset: staged_bytes(levels@, i as nat).len() as usize,
                    level: i as u32,
                    side: levels[i].side,
                },
        ),
{
    let mut bytes: Vec<u8> = Vec::new();
    let mut copies: Vec<LevelCopy> = Vec::new();
    let mut k: usize = 0;
    while k < levels.len()
        invariant
            k <= levels.len() <= u32::MAX,
            bytes@ == staged_bytes(levels@, k as nat),
            copies@ == Seq::new(
                k as nat,
                |i: int|
                    LevelCopy {
                        offset: staged_bytes(levels@, i as nat).len() as usize,
                        level: i as u32,
                        side: levels[i].side,
                    },
            ),
        decreases levels.len() - k,
    {
        copies.push(LevelCopy { offset: bytes.len(), level: k as u32, side: levels[k].side });
        append(&mut bytes, &levels[k].pixels);
        k += 1;
        assert(copies@ =~= Seq::new(
            k as nat,
            |i: int|
                LevelCopy {
                    offset: staged_bytes(levels@, i as nat).len() as usize,
                    level: i as u32,
                    side: levels[i].side,
                },
        ));
    }
    StagedWeave { bytes, copies }
}

fn append(out: &mut Vec<u8>, more: &Vec<u8>)
    ensures
        final(out)@ == old(out)@ + more@,
{
    let mut i: usize = 0;
    while i < more.len()
        invariant
            i <= more.len(),
            out@ == old(out)@ + more@.take(i as int),
        decreases more.len() - i,
    {
        out.push(more[i]);
        i += 1;
        assert(out@ =~= old(out)@ + more@.take(i as int));
    }
    assert(more@.take(i as int) =~= more@);
}

/// Each level is found at its offset, whole: the levels do not overlap.
pub proof fn levels_stand_at_their_offsets(levels: Seq<WeaveLevel>, k: int, n: nat)
    requires
        0 <= k < n <= levels.len(),
    ensures
        ({
            let at = staged_bytes(levels, k as nat).len() as int;
            at + levels[k].pixels@.len() <= staged_bytes(levels, n).len() && staged_bytes(
                levels,
                n,
            ).subrange(at, at + levels[k].pixels@.len()) == levels[k].pixels@
        }),
    decreases n,
{
    let at = staged_bytes(levels, k as nat).len() as int;
    let end = at + levels[k].pixels@.len();
    if k < n - 1 {
        levels_stand_at_their_offsets(levels, k, (n - 1) as nat);
        let shorter = staged_bytes(levels, (n - 1) as nat);
        assert(staged_bytes(levels, n).subrange(at, end) =~= shorter.subrange(at, end));
    }
    assert(staged_bytes(levels, n).subrange(at, end) =~= levels[k].pixels@);
}

// ---------------------------------------------------------------------------
// Material shaders
// ---------------------------------------------------------------------------

/// Compiled material shaders, one for each sample count of the environment
/// lighting. Large counts are an offline visual reference.
pub struct MaterialBlobs {
    pub samples_4: Vec<u8>,
    pub samples_8: Vec<u8>,
    pub samples_16: Vec<u8>,
    pub samples_32: Vec<u8>,
    pub samples_128: Vec<u8>,
}

/// Sample counts that a shader was compiled for.
pub open spec fn has_variant(samples: u32) -> bool {
    samples == 4 || samples == 8 || samples == 16 || samples == 32 || samples == 128
}

impl MaterialBlobs {
    /// The shader for a sample count.
    pub open spec fn variant(&self, samples: u32) -> Seq<u8> {
        if samples == 4 {
            self.samples_4@
        } else if samples == 8 {
            self.samples_8@
        } else if samples == 16 {
            self.samples_16@
        } else if samples == 32 {
            self.samples_32@
        } else {
            self.samples_128@
        }
    }

    fn pick(&self, samples: u32) -> (r: &Vec<u8>)
        requires
            has_variant(samples),
        ensures
            r@ == self.variant(samples),
    {
        if samples == 4 {
            &self.samples_4
        } else if samples == 8 {
            &self.samples_8
        } else if samples == 16 {
            &self.samples_16
        } else if samples == 32 {
            &self.samples_32
        } else {
            &self.samples_128
        }
    }
}

/// Whether a shader was compiled for a sample count.
pub fn is_variant(samples: u32) -> (r: bool)
    ensures
        r == has_variant(samples),
{
    samples == 4 || samples == 8 || samples == 16 || samples == 32 || samples == 128
}

/// Words of the material shader for a sample count.
pub fn plane_frag_spv(samples: u32, blobs: &MaterialBlobs) -> (r: Vec<u32>)
    requires
        has_variant(samples),
        gfx::is_spirv(blobs.variant(samples)),
    ensures
        r@ == gfx::words(blobs.variant(samples)),
        r.len() > 0,
{
    spv_words(blobs.pick(samples).as_slice())
}

/// Words of the ray-query material shader for a sample count. `blobs` holds
/// the shaders that were compiled with ray queries.
pub fn plane_frag_spv_rt(samples: u32, blobs: &MaterialBlobs) -> (r: Vec<u32>)
    requires
        has_variant(samples),
        gfx::is_spirv(blobs.variant(samples)),
    ensures
        r@ == gfx::words(blobs.variant(samples)),
        r.len() > 0,
{
    spv_words(blobs.pick(samples).as_slice())
}

/// Words of the ray-query ground shader.
pub fn ground_frag_spv_rt(blob: &Vec<u8>) -> (r: Vec<u32>)
    requires
        gfx::is_spirv(blob@),
    ensures
        r@ == gfx::words(blob@),
        r.len() > 0,
{
    spv_words(blob.as_slice())
}

// ---------------------------------------------------------------------------
// What belongs together
// ---------------------------------------------------------------------------

/// Side of the aircraft that a node is on: 1 for the left wing and its three
/// flaps, 2 for the right wing and its three, 0 for all else.
pub open spec fn wing_side(node: Node) -> int {
    match node {
        Node::WingL => 1,
        Node::WingR => 2,
        Node::Flap(id) => if id < 3 {
            1
        } else {
            2
        },
        _ => 0,
    }
}

/// Nodes share a ray mask where they are on the same side, and only there: a
/// wing is seen by rays together with its own flaps, and never together with
/// the other wing. A mask is one bit.
pub proof fn wings_cast_their_own_shadows(a: Node, b: Node)
    requires
        node_exists(a),
        node_exists(b),
    ensures
        ({
            let (p, q) = (
                shadow_mask(node_place(a) as u32),
                shadow_mask(node_place(b) as u32),
            );
            &&& p == q <==> wing_side(a) == wing_side(b)
            &&& p == 1 || p == 2 || p == 4
            &&& p == 1 <==> wing_side(a) == 0
        }),
{
}

/// Nodes of one kind have their matrices one behind the other, in the order of
/// their numbers, and the kinds follow each other from the hull to the fins.
pub proof fn nodes_are_in_order(i: u8, j: u8)
    ensures
        node_place(Node::Flap(j)) - node_place(Node::Flap(i)) == j - i,
        node_place(Node::Petal(j)) - node_place(Node::Petal(i)) == j - i,
        node_place(Node::Fin(j)) - node_place(Node::Fin(i)) == j - i,
        0 == node_place(Node::Hull) && node_place(Node::Hull) + 1 == node_place(Node::Canopy),
        node_place(Node::Canopy) + 1 == node_place(Node::WingL),
        node_place(Node::WingL) + 1 == node_place(Node::WingR),
        node_place(Node::WingR) + 1 == node_place(Node::Flap(0)),
        node_place(Node::Flap(5)) + 1 == node_place(Node::Rotor),
        node_place(Node::Rotor) + 1 == node_place(Node::Petal(0)),
        node_place(Node::Petal(9)) + 1 == node_place(Node::Fin(0)),
        node_place(Node::Fin(1)) + 1 == NODE_COUNT,
{
}

/// Blocks stand close: less than 256 bytes are lost between one and the next.
pub proof fn blocks_stand_close(sizes: Seq<u64>, i: nat)
    requires
        i < sizes.len(),
    ensures
        packed_end(sizes, 0) == 0,
        packed_end(sizes, i + 1) < packed_end(sizes, i) + sizes[i as int] + 256,
{
}

/// The weave is a square grid: it is the same along both axes and repeats
/// every sixteen pixels. Each of the heavy lines is darker than the fine ones,
/// and those are darker than the cloth, in every colour. Cloth and lines are
/// warm: red is brightest and blue darkest.
pub proof fn weave_is_a_grid(x: int, y: int, u: int, v: int, c: int)
    requires
        0 <= c < 3,
    ensures
        weave_color(x, y, c) == weave_color(y, x, c),
        weave_color(x + 16, y, c) == weave_color(x, y, c),
        x % 16 == 0 && u % 16 != 0 && v % 16 != 0 ==> weave_color(x, y, c) < weave_color(u, v, c),
        x % 4 == 0 && x % 16 != 0 && u % 4 != 0 && v % 4 != 0 ==> weave_color(x, y, c)
            < weave_color(u, v, c),
        x % 16 == 0 && u % 16 == 0 ==> weave_color(x, y, c) == weave_color(u, v, c),
        x % 4 != 0 && y % 4 != 0 && u % 4 != 0 && v % 4 != 0 ==> weave_color(x, y, c)
            == weave_color(u, v, c),
        x % 4 == 0 && x % 16 != 0 && y % 16 != 0 && u % 4 == 0 && u % 16 != 0 && v % 16 != 0
            ==> weave_color(x, y, c) == weave_color(u, v, c),
        weave_color(x, y, 0) > weave_color(x, y, 1) > weave_color(x, y, 2),
{
}

/// Channel `c` of a texel of a level of the weave.
pub open spec fn weave_texel(level: nat, x: int, y: int, c: int) -> u8 {
    weave_level(level)[4 * (y * weave_side(level) + x) + c]
}

/// A texel of a smaller level is the average of the four that it covers on the
/// level before, rounded down. The first level is the pattern.
pub proof fn levels_average(level: nat, x: int, y: int, c: int)
    requires
        level <= 6,
        0 <= x < weave_side(level),
        0 <= y < weave_side(level),
        0 <= c < 4,
    ensures
        level == 0 ==> weave_texel(level, x, y, c) == weave_color(x, y, c),
        level > 0 ==> ({
            let b = (level - 1) as nat;
            let sum = weave_texel(b, 2 * x, 2 * y, c) + weave_texel(b, 2 * x + 1, 2 * y, c)
                + weave_texel(b, 2 * x, 2 * y + 1, c) + weave_texel(b, 2 * x + 1, 2 * y + 1, c);
            4 * weave_texel(level, x, y, c) <= sum < 4 * weave_texel(level, x, y, c) + 4
        }),
{
    reveal_with_fuel(weave_side, 8);
    let side = weave_side(level);
    let p = y * side + x;
    assert(0 <= p < side * side) by (nonlinear_arith)
        requires
            0 <= x < side,
            0 <= y < side,
            p == y * side + x,
    ;
    vstd::arithmetic::div_mod::lemma_fundamental_div_mod_converse(p, side, y, x);
    let i = 4 * p + c;
    assert(i / 4 == p && i % 4 == c);
    assert(weave_level(level).len() == 4 * (side * side));
    if level > 0 {
        let b = (level - 1) as nat;
        let w = weave_side(b);
        let prev = weave_level(b);
        assert(w == 2 * side);
        assert(4 * ((2 * y) * w + 2 * x) + c == ((2 * y) * w + 2 * x) * 4 + c);
        assert(weave_level(level)[i] == boxed(prev, w, x, y, c));
    }
}

/// The shader for a sample count is the one that was compiled for it: no other
/// one matters.
pub proof fn variants_go_by_their_samples(a: MaterialBlobs, b: MaterialBlobs, samples: u32)
    requires
        has_variant(samples),
        samples == 4 ==> a.samples_4@ == b.samples_4@,
        samples == 8 ==> a.samples_8@ == b.samples_8@,
        samples == 16 ==> a.samples_16@ == b.samples_16@,
        samples == 32 ==> a.samples_32@ == b.samples_32@,
        samples == 128 ==> a.samples_128@ == b.samples_128@,
    ensures
        a.variant(samples) == b.variant(samples),
        exists|k: nat| #[trigger] vstd::arithmetic::power2::pow2(k) == samples && 2 <= k <= 7 && k
            != 6,
{
    vstd::arithmetic::power2::lemma2_to64();
    let k: nat = if samples == 4 {
        2
    } else if samples == 8 {
        3
    } else if samples == 16 {
        4
    } else if samples == 32 {
        5
    } else {
        7
    };
    assert(vstd::arithmetic::power2::pow2(k) == samples);
}

/// Materials are numbered as the shaders know them, from the cloth of the sails
/// on to what glows.
pub proof fn materials_are_in_order()
    ensures
        material_number(MatId::Sail) == 0,
        material_number(MatId::Composite) == material_number(MatId::Sail) + 1,
        material_number(MatId::Graphite) == material_number(MatId::Composite) + 1,
        material_number(MatId::Titanium) == material_number(MatId::Graphite) + 1,
        material_number(MatId::Dark) == material_number(MatId::Titanium) + 1,
        material_number(MatId::Seat) == material_number(MatId::Dark) + 1,
        material_number(MatId::Glass) == material_number(MatId::Seat) + 1,
        material_number(MatId::Glow) == material_number(MatId::Glass) + 1,
{
}

} // verus!
