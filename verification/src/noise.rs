//! Tileable lattice noise for the cloud volumes.
//!
//! An integer lattice is hashed with wrapping arithmetic, and cells wrap round
//! so that a volume tiles. What is interpolated from the lattice is left to
//! the caller, who supplies the texels of a volume.
use vstd::prelude::*;

verus! {

/// Side of the base volume.
pub const BASE_N: usize = 32;

/// Side of the detail volume.
pub const DETAIL_N: usize = 16;

/// Side of the curl map.
pub const CURL_N: usize = 32;

/// Mixes a lattice point and a seed.
pub open spec fn lattice_hash(x: u32, y: u32, z: u32, seed: u32) -> u32 {
    let a = x.wrapping_mul(374761393) ^ y.wrapping_mul(668265263) ^ z.wrapping_mul(2147483647)
        ^ seed.wrapping_mul(1442695041);
    let b = (a ^ (a >> 13)).wrapping_mul(1274126177);
    b ^ (b >> 16)
}

/// Hash of a lattice point.
pub fn hash3(x: u32, y: u32, z: u32, seed: u32) -> (h: u32)
    ensures
        h == lattice_hash(x, y, z, seed),
{
    let a: u32 = x.wrapping_mul(374761393) ^ y.wrapping_mul(668265263) ^ z.wrapping_mul(2147483647)
        ^ seed.wrapping_mul(1442695041);
    let b: u32 = (a ^ (a >> 13)).wrapping_mul(1274126177);
    b ^ (b >> 16)
}

/// Random value of a cell, in units of 2^-24.
pub open spec fn cell_value(cell: [u32; 3], seed: u32) -> u32 {
    lattice_hash(cell[0], cell[1], cell[2], seed) & 0xff_ffff
}

/// Random value of a cell, in units of 2^-24: below one.
pub fn rand_cell(cell: [u32; 3], seed: u32) -> (r: u32)
    ensures
        r == cell_value(cell, seed),
        r < 0x100_0000,
{
    let h: u32 = hash3(cell[0], cell[1], cell[2], seed);
    assert(h & 0xff_ffff < 0x100_0000) by (bit_vector);
    h & 0xff_ffff
}

/// Lattice cells repeat with a period of `cells`.
pub fn wrap_cell(i: i32, d: i32, cells: u32) -> (r: u32)
    requires
        cells > 0,
    ensures
        r == (i + d) % (cells as int),
{
    let x: i64 = i as i64 + d as i64;
    match x.checked_rem_euclid(cells as i64) {
        Some(r) => r as u32,
        None => 0,
    }
}

/// Random value at an offset from `at`, after wrapping.
pub open spec fn value_at(at: [i32; 3], dx: int, dy: int, dz: int, cells: u32, seed: u32) -> u32 {
    lattice_hash(
        ((at[0] + dx) % (cells as int)) as u32,
        ((at[1] + dy) % (cells as int)) as u32,
        ((at[2] + dz) % (cells as int)) as u32,
        seed,
    ) & 0xff_ffff
}

fn value_near(at: [i32; 3], dx: i32, dy: i32, dz: i32, cells: u32, seed: u32) -> (r: u32)
    requires
        cells > 0,
    ensures
        r == value_at(at, dx as int, dy as int, dz as int, cells, seed),
        r < 0x100_0000,
{
    rand_cell(
        [wrap_cell(at[0], dx, cells), wrap_cell(at[1], dy, cells), wrap_cell(at[2], dz, cells)],
        seed,
    )
}

/// Values at the eight corners of the cell at `at`, in units of 2^-24. Corner
/// `dx + 2 dy + 4 dz` lies at that offset.
pub fn value_corners(at: [i32; 3], cells: u32, seed: u32) -> (r: Vec<u32>)
    requires
        cells > 0,
    ensures
        r.len() == 8,
        forall|k: int|
            0 <= k < 8 ==> #[trigger] r[k] == value_at(
                at,
                k % 2,
                (k / 2) % 2,
                k / 4,
                cells,
                seed,
            ),
        forall|k: int| 0 <= k < 8 ==> #[trigger] r[k] < 0x100_0000,
{
    let mut r: Vec<u32> = Vec::new();
    let mut k: i32 = 0;
    while k < 8
        invariant
            cells > 0,
            0 <= k <= 8,
            r.len() == k,
            forall|j: int|
                0 <= j < k ==> #[trigger] r[j] == value_at(
                    at,
                    j % 2,
                    (j / 2) % 2,
                    j / 4,
                    cells,
                    seed,
                ),
            forall|j: int| 0 <= j < k ==> #[trigger] r[j] < 0x100_0000,
        decreases 8 - k,
    {
        r.push(value_near(at, k % 2, (k / 2) % 2, k / 4, cells, seed));
        k += 1;
    }
    r
}

/// A Worley feature point: its wrapped cell, and its place in the cell in
/// units of 2^-24.
#[derive(Clone, Copy, Debug, PartialEq, Eq)]
pub struct Feature {
    pub cell: [u32; 3],
    pub place: [u32; 3],
}

/// Seeds of the three coordinates of a feature point.
pub open spec fn place_seed(seed: u32, axis: int) -> u32 {
    if axis == 0 {
        seed
    } else if axis == 1 {
        seed ^ 0x9e37
    } else {
        seed ^ 0x51f3
    }
}

/// `f` is the feature point of the cell at an offset from `at`.
pub open spec fn is_feature(
    f: Feature,
    at: [i32; 3],
    dx: int,
    dy: int,
    dz: int,
    cells: u32,
    seed: u32,
) -> bool {
    &&& f.cell[0] == (at[0] + dx) % (cells as int)
    &&& f.cell[1] == (at[1] + dy) % (cells as int)
    &&& f.cell[2] == (at[2] + dz) % (cells as int)
    &&& f.place[0] == value_at(at, dx, dy, dz, cells, place_seed(seed, 0))
    &&& f.place[1] == value_at(at, dx, dy, dz, cells, place_seed(seed, 1))
    &&& f.place[2] == value_at(at, dx, dy, dz, cells, place_seed(seed, 2))
}

/// Feature points of the 27 cells around `at`, with the first coordinate
/// running fastest.
pub fn worley_features(at: [i32; 3], cells: u32, seed: u32) -> (r: Vec<Feature>)
    requires
        cells > 0,
    ensures
        r.len() == 27,
        forall|k: int|
            0 <= k < 27 ==> is_feature(
                #[trigger] r[k],
                at,
                k % 3 - 1,
                (k / 3) % 3 - 1,
                k / 9 - 1,
                cells,
                seed,
            ),
{
    let mut r: Vec<Feature> = Vec::new();
    let mut k: i32 = 0;
    while k < 27
        invariant
            cells > 0,
            0 <= k <= 27,
            r.len() == k,
            forall|j: int|
                0 <= j < k ==> is_feature(
                    #[trigger] r[j],
                    at,
                    j % 3 - 1,
                    (j / 3) % 3 - 1,
                    j / 9 - 1,
                    cells,
                    seed,
                ),
        decreases 27 - k,
    {
        let dx: i32 = k % 3 - 1;
        let dy: i32 = (k / 3) % 3 - 1;
        let dz: i32 = k / 9 - 1;
        r.push(
            Feature {
                cell: [
                    wrap_cell(at[0], dx, cells),
                    wrap_cell(at[1], dy, cells),
                    wrap_cell(at[2], dz, cells),
                ],
                place: [
                    value_near(at, dx, dy, dz, cells, seed),
                    value_near(at, dx, dy, dz, cells, seed ^ 0x9e37),
                    value_near(at, dx, dy, dz, cells, seed ^ 0x51f3),
                ],
            },
        );
        k += 1;
    }
    r
}

/// Lattice noise tiles: a shift by whole periods along the axes changes no
/// lattice value.
pub proof fn lattice_tiles(
    at: [i32; 3],
    shifted: [i32; 3],
    periods: [int; 3],
    dx: int,
    dy: int,
    dz: int,
    cells: u32,
    seed: u32,
)
    requires
        cells > 0,
        forall|k: int|
            0 <= k < 3 ==> #[trigger] shifted[k] == at[k] + #[trigger] periods[k] * cells,
    ensures
        value_at(shifted, dx, dy, dz, cells, seed) == value_at(at, dx, dy, dz, cells, seed),
{
    let c = cells as int;
    assert(shifted[0] == at[0] + periods[0] * c);
    assert(shifted[1] == at[1] + periods[1] * c);
    assert(shifted[2] == at[2] + periods[2] * c);
    tiles_along(at[0] + dx, periods[0], c);
    tiles_along(at[1] + dy, periods[1], c);
    tiles_along(at[2] + dz, periods[2], c);
}

proof fn tiles_along(x: int, k: int, c: int)
    requires
        c > 0,
    ensures
        (x + k * c) % c == x % c,
{
    vstd::arithmetic::div_mod::lemma_mod_multiples_vanish(k, x, c);
    assert(c * k + x == x + k * c) by (nonlinear_arith);
}

/// Lattice period and seed of one octave of fractal noise.
pub fn octave(cells: u32, o: u32, seed: u32) -> (r: (u32, u32))
    requires
        o < 32,
        seed + o * 101 <= u32::MAX,
    ensures
        r.0 == (if (cells << o) < 64 {
            cells << o
        } else {
            64
        }),
        r.1 == seed + o * 101,
{
    let period: u32 = cells << o;
    (
        if period < 64 {
            period
        } else {
            64
        },
        seed + o * 101,
    )
}

// ---------------------------------------------------------------------------
// Volumes
// ---------------------------------------------------------------------------

/// Byte offset of a texel in a volume of side `n`.
pub open spec fn texel_offset(n: int, x: int, y: int, z: int) -> int {
    4 * ((z * n + y) * n + x)
}

/// The four bytes at an offset.
pub open spec fn texel_bytes(s: Seq<u8>, o: int) -> (u8, u8, u8, u8) {
    (s[o], s[o + 1], s[o + 2], s[o + 3])
}

/// Every texel has bytes of its own: different texels have different offsets.
pub proof fn texels_do_not_overlap(
    n: int,
    x1: int,
    y1: int,
    z1: int,
    x2: int,
    y2: int,
    z2: int,
)
    requires
        0 <= x1 < n && 0 <= y1 < n,
        0 <= x2 < n && 0 <= y2 < n,
        texel_offset(n, x1, y1, z1) == texel_offset(n, x2, y2, z2),
    ensures
        x1 == x2 && y1 == y2 && z1 == z2,
{
    let a = z1 * n + y1;
    let b = z2 * n + y2;
    vstd::arithmetic::div_mod::lemma_fundamental_div_mod_converse(a * n + x1, n, a, x1);
    vstd::arithmetic::div_mod::lemma_fundamental_div_mod_converse(b * n + x2, n, b, x2);
    vstd::arithmetic::div_mod::lemma_fundamental_div_mod_converse(a, n, z1, y1);
    vstd::arithmetic::div_mod::lemma_fundamental_div_mod_converse(b, n, z2, y2);
}

/// RGBA bytes of a volume of side `n` and depth `depth`, texel by texel with
/// `x` running fastest.
fn fill_volume<F: Fn(u32, u32, u32) -> (u8, u8, u8, u8)>(
    n: u32,
    depth: u32,
    texel: F,
) -> (out: Vec<u8>)
    requires
        n <= 256,
        depth <= 256,
        forall|x: u32, y: u32, z: u32|
            x < n && y < n && z < depth ==> #[trigger] call_requires(texel, (x, y, z)),
    ensures
        out.len() == 4 * (depth * n * n),
        forall|x: u32, y: u32, z: u32|
            #![trigger texel_offset(n as int, x as int, y as int, z as int)]
            x < n && y < n && z < depth ==> call_ensures(
                texel,
                (x, y, z),
                texel_bytes(out@, texel_offset(n as int, x as int, y as int, z as int)),
            ),
{
    let mut out: Vec<u8> = Vec::new();
    let mut z: u32 = 0;
    assert(4 * (0 * n * n) == 0);
    while z < depth
        invariant
            n <= 256,
            depth <= 256,
            z <= depth,
            out.len() == 4 * (z * n * n),
            forall|x: u32, y: u32, z: u32|
                x < n && y < n && z < depth ==> #[trigger] call_requires(texel, (x, y, z)),
            forall|i: u32, j: u32, k: u32|
                #![trigger texel_offset(n as int, i as int, j as int, k as int)]
                i < n && j < n && k < z ==> call_ensures(
                    texel,
                    (i, j, k),
                    texel_bytes(out@, texel_offset(n as int, i as int, j as int, k as int)),
                ),
        decreases depth - z,
    {
        let mut y: u32 = 0;
        assert(texel_offset(n as int, 0, 0, z as int) == 4 * (z * n * n)) by (nonlinear_arith);
        while y < n
            invariant
                n <= 256,
                depth <= 256,
                z < depth,
                y <= n,
                out.len() == texel_offset(n as int, 0, y as int, z as int),
                forall|x: u32, y: u32, z: u32|
                    x < n && y < n && z < depth ==> #[trigger] call_requires(texel, (x, y, z)),
                forall|i: u32, j: u32, k: u32|
                    #![trigger texel_offset(n as int, i as int, j as int, k as int)]
                    i < n && j < n && (k < z || (k == z && j < y)) ==> call_ensures(
                        texel,
                        (i, j, k),
                        texel_bytes(out@, texel_offset(n as int, i as int, j as int, k as int)),
                    ),
            decreases n - y,
        {
            let mut x: u32 = 0;
            while x < n
                invariant
                    n <= 256,
                    depth <= 256,
                    z < depth,
                    y < n,
                    x <= n,
                    out.len() == texel_offset(n as int, x as int, y as int, z as int),
                    forall|x: u32, y: u32, z: u32|
                        x < n && y < n && z < depth ==> #[trigger] call_requires(texel, (x, y, z)),
                    forall|i: u32, j: u32, k: u32|
                        #![trigger texel_offset(n as int, i as int, j as int, k as int)]
                        i < n && j < n && (k < z || (k == z && (j < y || (j == y && i < x))))
                            ==> call_ensures(
                            texel,
                            (i, j, k),
                            texel_bytes(out@, texel_offset(n as int, i as int, j as int, k as int)),
                        ),
                decreases n - x,
            {
                let (r, g, b, a): (u8, u8, u8, u8) = texel(x, y, z);
                let ghost before = out@;
                out.push(r);
                out.push(g);
                out.push(b);
                out.push(a);
                proof {
                    let ni = n as int;
                    assert forall|i: u32, j: u32, k: u32|
                        #![trigger texel_offset(n as int, i as int, j as int, k as int)]
                        i < n && j < n && (k < z || (k == z && (j < y || (j == y && i < x + 1))))
                            implies call_ensures(
                        texel,
                        (i, j, k),
                        texel_bytes(out@, texel_offset(n as int, i as int, j as int, k as int)),
                    ) by {
                        let o = texel_offset(ni, i as int, j as int, k as int);
                        if i == x && j == y && k == z {
                            assert(texel_bytes(out@, o) == (r, g, b, a));
                        } else {
                            earlier_texel(
                                ni,
                                i as int,
                                j as int,
                                k as int,
                                x as int,
                                y as int,
                                z as int,
                            );
                            assert(texel_bytes(out@, o) == texel_bytes(before, o));
                        }
                    }
                }
                x += 1;
            }
            proof {
                assert(texel_offset(n as int, n as int, y as int, z as int) == texel_offset(
                    n as int,
                    0,
                    y + 1,
                    z as int,
                )) by (nonlinear_arith);
            }
            y += 1;
        }
        proof {
            assert(texel_offset(n as int, 0, n as int, z as int) == 4 * ((z + 1) * n * n))
                by (nonlinear_arith);
        }
        z += 1;
    }
    out
}

/// A texel that comes before another lies wholly before it.
proof fn earlier_texel(n: int, i: int, j: int, k: int, x: int, y: int, z: int)
    requires
        0 <= i < n,
        0 <= j < n,
        0 <= x < n,
        0 <= y < n,
        0 <= k,
        k < z || (k == z && (j < y || (j == y && i < x))),
    ensures
        0 <= texel_offset(n, i, j, k),
        texel_offset(n, i, j, k) + 4 <= texel_offset(n, x, y, z),
{
    let a = k * n + j;
    let b = z * n + y;
    assert(0 <= a * n + i) by (nonlinear_arith)
        requires
            0 <= i,
            0 <= j,
            0 <= k,
            0 < n,
            a == k * n + j,
    ;
    if k < z {
        assert(a + 1 <= b) by (nonlinear_arith)
            requires
                k < z,
                0 <= j < n,
                0 <= y,
                a == k * n + j,
                b == z * n + y,
        ;
    }
    if a < b {
        assert(a * n + i + 1 <= b * n + x) by (nonlinear_arith)
            requires
                a + 1 <= b,
                0 <= i < n,
                0 <= x,
        ;
    }
}

/// Base volume in RGBA bytes, of side `BASE_N`. `texel` gives the four
/// channels at a lattice position.
pub fn generate_base<F: Fn(u32, u32, u32) -> (u8, u8, u8, u8)>(texel: F) -> (out: Vec<u8>)
    requires
        forall|x: u32, y: u32, z: u32|
            x < BASE_N && y < BASE_N && z < BASE_N ==> #[trigger] call_requires(texel, (x, y, z)),
    ensures
        out.len() == BASE_N * BASE_N * BASE_N * 4,
        is_base(texel, out@),
{
    fill_volume(BASE_N as u32, BASE_N as u32, texel)
}

/// The bytes of a base volume are what `texel` gave.
pub open spec fn is_base<F: Fn(u32, u32, u32) -> (u8, u8, u8, u8)>(texel: F, out: Seq<u8>) -> bool {
    &&& out.len() == BASE_N * BASE_N * BASE_N * 4
    &&& forall|x: u32, y: u32, z: u32|
        #![trigger texel_offset(BASE_N as int, x as int, y as int, z as int)]
        x < BASE_N && y < BASE_N && z < BASE_N ==> call_ensures(
            texel,
            (x, y, z),
            texel_bytes(out, texel_offset(BASE_N as int, x as int, y as int, z as int)),
        )
}

/// `texel` gives one answer at a position, whenever it is asked.
pub open spec fn repeats_itself<F: Fn(u32, u32, u32) -> (u8, u8, u8, u8)>(texel: F) -> bool {
    forall|x: u32, y: u32, z: u32, s: (u8, u8, u8, u8), t: (u8, u8, u8, u8)|
        #![trigger call_ensures(texel, (x, y, z), s), call_ensures(texel, (x, y, z), t)]
        call_ensures(texel, (x, y, z), s) && call_ensures(texel, (x, y, z), t) ==> s == t
}

/// Two base volumes of a `texel` that repeats itself are the same bytes.
pub proof fn base_volumes_agree<F: Fn(u32, u32, u32) -> (u8, u8, u8, u8)>(
    texel: F,
    a: Seq<u8>,
    b: Seq<u8>,
)
    requires
        is_base(texel, a),
        is_base(texel, b),
        repeats_itself(texel),
    ensures
        a == b,
{
    let n = BASE_N as int;
    assert forall|i: int| 0 <= i < a.len() implies a[i] == b[i] by {
        let t = i / 4;
        let (x, y, z) = ((t % 32) as u32, ((t / 32) % 32) as u32, (t / 1024) as u32);
        assert(0 <= t < 32768);
        let o = texel_offset(n, x as int, y as int, z as int);
        assert(o == 4 * t);
        assert(call_ensures(texel, (x, y, z), texel_bytes(a, o)));
        assert(call_ensures(texel, (x, y, z), texel_bytes(b, o)));
        assert(texel_bytes(a, o) == texel_bytes(b, o));
    }
    assert(a =~= b);
}

/// A base volume spreads as far as its texels do: where the first channel of
/// one is more than `d` above that of another, some byte is more than `d`
/// above some other.
pub proof fn base_volumes_spread<F: Fn(u32, u32, u32) -> (u8, u8, u8, u8)>(
    texel: F,
    out: Seq<u8>,
    p: (u32, u32, u32),
    q: (u32, u32, u32),
    d: int,
)
    requires
        is_base(texel, out),
        p.0 < BASE_N && p.1 < BASE_N && p.2 < BASE_N,
        q.0 < BASE_N && q.1 < BASE_N && q.2 < BASE_N,
        forall|s: (u8, u8, u8, u8), t: (u8, u8, u8, u8)|
            #![trigger call_ensures(texel, p, s), call_ensures(texel, q, t)]
            call_ensures(texel, p, s) && call_ensures(texel, q, t) ==> s.0 > t.0 + d,
    ensures
        exists|i: int, j: int|
            0 <= i < out.len() && 0 <= j < out.len() && #[trigger] out[i] > #[trigger] out[j] + d,
{
    let n = BASE_N as int;
    let i = texel_offset(n, p.0 as int, p.1 as int, p.2 as int);
    let j = texel_offset(n, q.0 as int, q.1 as int, q.2 as int);
    assert(call_ensures(texel, (p.0, p.1, p.2), texel_bytes(out, i)));
    assert(call_ensures(texel, (q.0, q.1, q.2), texel_bytes(out, j)));
    assert(out[i] > out[j] + d);
    assert(0 <= i < out.len() && 0 <= j < out.len());
}

/// Detail volume of side `DETAIL_N`. `texel` gives three channels at a lattice
/// position; the fourth byte is full.
pub fn generate_detail<F: Fn(u32, u32, u32) -> (u8, u8, u8) + Copy>(texel: F) -> (out: Vec<u8>)
    requires
        forall|x: u32, y: u32, z: u32|
            x < DETAIL_N && y < DETAIL_N && z < DETAIL_N ==> #[trigger] call_requires(
                texel,
                (x, y, z),
            ),
    ensures
        out.len() == DETAIL_N * DETAIL_N * DETAIL_N * 4,
        forall|x: u32, y: u32, z: u32|
            #![trigger texel_offset(DETAIL_N as int, x as int, y as int, z as int)]
            x < DETAIL_N && y < DETAIL_N && z < DETAIL_N ==> {
                let t = texel_bytes(
                    out@,
                    texel_offset(DETAIL_N as int, x as int, y as int, z as int),
                );
                &&& call_ensures(texel, (x, y, z), (t.0, t.1, t.2))
                &&& t.3 == 255
            },
{
    let padded = |x: u32, y: u32, z: u32| -> (t: (u8, u8, u8, u8))
        requires
            call_requires(texel, (x, y, z)),
        ensures
            call_ensures(texel, (x, y, z), (t.0, t.1, t.2)),
            t.3 == 255,
        {
            let (r, g, b): (u8, u8, u8) = texel(x, y, z);
            (r, g, b, 255u8)
        };
    fill_volume(DETAIL_N as u32, DETAIL_N as u32, padded)
}

/// Curl map of side `CURL_N`. `texel` gives the warp at a position; the other
/// two bytes are zero and full.
pub fn generate_curl<F: Fn(u32, u32) -> (u8, u8) + Copy>(texel: F) -> (out: Vec<u8>)
    requires
        forall|x: u32, y: u32|
            x < CURL_N && y < CURL_N ==> #[trigger] call_requires(texel, (x, y)),
    ensures
        out.len() == CURL_N * CURL_N * 4,
        forall|x: u32, y: u32|
            #![trigger texel_offset(CURL_N as int, x as int, y as int, 0)]
            x < CURL_N && y < CURL_N ==> {
                let t = texel_bytes(out@, texel_offset(CURL_N as int, x as int, y as int, 0));
                &&& call_ensures(texel, (x, y), (t.0, t.1))
                &&& t.2 == 0
                &&& t.3 == 255
            },
{
    let padded = |x: u32, y: u32, z: u32| -> (t: (u8, u8, u8, u8))
        requires
            call_requires(texel, (x, y)),
        ensures
            call_ensures(texel, (x, y), (t.0, t.1)),
            t.2 == 0,
            t.3 == 255,
        {
            let (r, g): (u8, u8) = texel(x, y);
            (r, g, 0u8, 255u8)
        };
    let out: Vec<u8> = fill_volume(CURL_N as u32, 1, padded);
    proof {
        assert forall|x: u32, y: u32|
            #![trigger texel_offset(CURL_N as int, x as int, y as int, 0)]
            x < CURL_N && y < CURL_N implies {
            let t = texel_bytes(out@, texel_offset(CURL_N as int, x as int, y as int, 0));
            &&& call_ensures(texel, (x, y), (t.0, t.1))
            &&& t.2 == 0
            &&& t.3 == 255
        } by {
            let z = 0u32;
            let o = texel_offset(CURL_N as int, x as int, y as int, z as int);
            assert(o == texel_offset(CURL_N as int, x as int, y as int, 0));
        }
    }
    out
}

// ---------------------------------------------------------------------------
// What the lattice is for
// ---------------------------------------------------------------------------

/// A product with a number that has an inverse can be told from its factor.
proof fn product_tells(a: u32, b: u32, c: int, inverse: int, k: int)
    requires
        c * inverse == 1 + k * 0x1_0000_0000,
        (a * c) % 0x1_0000_0000 == (b * c) % 0x1_0000_0000,
    ensures
        a == b,
{
    undone(a as int, c, inverse, k);
    undone(b as int, c, inverse, k);
}

pub(crate) proof fn undone(a: int, c: int, inverse: int, k: int)
    requires
        0 <= a < 0x1_0000_0000,
        c * inverse == 1 + k * 0x1_0000_0000,
    ensures
        (((a * c) % 0x1_0000_0000) * inverse) % 0x1_0000_0000 == a,
{
    let m = 0x1_0000_0000int;
    vstd::arithmetic::div_mod::lemma_mul_mod_noop_left(a * c, inverse, m);
    assert((a * c) * inverse == a * (c * inverse)) by (nonlinear_arith);
    assert(a * (1 + k * m) == m * (a * k) + a) by (nonlinear_arith);
    vstd::arithmetic::div_mod::lemma_mod_multiples_vanish(a * k, a, m);
    vstd::arithmetic::div_mod::lemma_small_mod(a as nat, m as nat);
}

/// The last steps of the hash lose nothing.
proof fn mixing_tells(a: u32, b: u32)
    requires
        ({
            let p = (a ^ (a >> 13)).wrapping_mul(1274126177);
            let q = (b ^ (b >> 13)).wrapping_mul(1274126177);
            p ^ (p >> 16) == q ^ (q >> 16)
        }),
    ensures
        a == b,
{
    let (x, y) = (a ^ (a >> 13), b ^ (b >> 13));
    let (p, q) = (x.wrapping_mul(1274126177), y.wrapping_mul(1274126177));
    assert(p == q) by (bit_vector)
        requires
            p ^ (p >> 16) == q ^ (q >> 16),
    ;
    product_tells(x, y, 1274126177, 1406485665, 417241874);
    assert(a == b) by (bit_vector)
        requires
            a ^ (a >> 13) == b ^ (b >> 13),
    ;
}

/// The hash tells lattice points apart: two that lie on a line along an axis
/// never share their hash, and neither does one point under two seeds.
pub proof fn hashes_tell_points_apart(x: u32, y: u32, z: u32, seed: u32, other: u32)
    ensures
        lattice_hash(x, y, z, seed) == lattice_hash(other, y, z, seed) ==> x == other,
        lattice_hash(x, y, z, seed) == lattice_hash(x, other, z, seed) ==> y == other,
        lattice_hash(x, y, z, seed) == lattice_hash(x, y, other, seed) ==> z == other,
        lattice_hash(x, y, z, seed) == lattice_hash(x, y, z, other) ==> seed == other,
{
    let (a, b, c, d) = (
        x.wrapping_mul(374761393),
        y.wrapping_mul(668265263),
        z.wrapping_mul(2147483647),
        seed.wrapping_mul(1442695041),
    );
    let (e, f, g, h) = (
        other.wrapping_mul(374761393),
        other.wrapping_mul(668265263),
        other.wrapping_mul(2147483647),
        other.wrapping_mul(1442695041),
    );
    if lattice_hash(x, y, z, seed) == lattice_hash(other, y, z, seed) {
        mixing_tells(a ^ b ^ c ^ d, e ^ b ^ c ^ d);
        assert(a == e) by (bit_vector)
            requires
                a ^ b ^ c ^ d == e ^ b ^ c ^ d,
        ;
        product_tells(x, other, 374761393, 2923004241, 255049472);
    }
    if lattice_hash(x, y, z, seed) == lattice_hash(x, other, z, seed) {
        mixing_tells(a ^ b ^ c ^ d, a ^ f ^ c ^ d);
        assert(b == f) by (bit_vector)
            requires
                a ^ b ^ c ^ d == a ^ f ^ c ^ d,
        ;
        product_tells(y, other, 668265263, 2701016015, 420258189);
    }
    if lattice_hash(x, y, z, seed) == lattice_hash(x, y, other, seed) {
        mixing_tells(a ^ b ^ c ^ d, a ^ b ^ g ^ d);
        assert(c == g) by (bit_vector)
            requires
                a ^ b ^ c ^ d == a ^ b ^ g ^ d,
        ;
        product_tells(z, other, 2147483647, 2147483647, 1073741823);
    }
    if lattice_hash(x, y, z, seed) == lattice_hash(x, y, z, other) {
        mixing_tells(a ^ b ^ c ^ d, a ^ b ^ c ^ h);
        assert(d == h) by (bit_vector)
            requires
                a ^ b ^ c ^ d == a ^ b ^ c ^ h,
        ;
        product_tells(seed, other, 1442695041, 2996467841, 1006524380);
    }
}

/// A cell's value is what its hash leaves of units of 2^-24.
pub proof fn values_are_below_one(cell: [u32; 3], seed: u32)
    ensures
        cell_value(cell, seed) as int == lattice_hash(cell[0], cell[1], cell[2], seed) as int
            % 0x100_0000,
{
    let h = lattice_hash(cell[0], cell[1], cell[2], seed);
    assert(h & 0xff_ffff == h % 0x100_0000) by (bit_vector);
}

/// A lattice value belongs to a cell, however the cell is reached: from any
/// point, by any offset, that leads to it after whole periods along the axes.
pub proof fn values_belong_to_cells(
    at: [i32; 3],
    dx: int,
    dy: int,
    dz: int,
    periods: [int; 3],
    cell: [u32; 3],
    cells: u32,
    seed: u32,
)
    requires
        cell[0] < cells && cell[1] < cells && cell[2] < cells,
        at[0] + dx == cell[0] + periods[0] * cells,
        at[1] + dy == cell[1] + periods[1] * cells,
        at[2] + dz == cell[2] + periods[2] * cells,
    ensures
        value_at(at, dx, dy, dz, cells, seed) == cell_value(cell, seed),
{
    let c = cells as int;
    tiles_along(cell[0] as int, periods[0], c);
    tiles_along(cell[1] as int, periods[1], c);
    tiles_along(cell[2] as int, periods[2], c);
    vstd::arithmetic::div_mod::lemma_small_mod(cell[0] as nat, c as nat);
    vstd::arithmetic::div_mod::lemma_small_mod(cell[1] as nat, c as nat);
    vstd::arithmetic::div_mod::lemma_small_mod(cell[2] as nat, c as nat);
}

/// The coordinates of a feature point are hashed apart: no two of its seeds
/// are the same, so no two coordinates have the same hash, whatever the cell.
/// The seeds of different points stay different along each axis.
pub proof fn places_are_hashed_apart(seed: u32, other: u32, a: int, b: int, x: u32, y: u32, z: u32)
    requires
        0 <= a < 3,
        0 <= b < 3,
    ensures
        place_seed(seed, a) == place_seed(seed, b) <==> a == b,
        lattice_hash(x, y, z, place_seed(seed, a)) == lattice_hash(x, y, z, place_seed(seed, b))
            <==> a == b,
        place_seed(seed, a) == place_seed(other, a) <==> seed == other,
        place_seed(place_seed(seed, a), a) == seed,
{
    assert(seed ^ 0x9e37 != seed && seed ^ 0x51f3 != seed && seed ^ 0x9e37 != seed ^ 0x51f3)
        by (bit_vector);
    assert(seed ^ 0x9e37 == other ^ 0x9e37 ==> seed == other) by (bit_vector);
    assert(seed ^ 0x51f3 == other ^ 0x51f3 ==> seed == other) by (bit_vector);
    assert((seed ^ 0x9e37) ^ 0x9e37 == seed && (seed ^ 0x51f3) ^ 0x51f3 == seed) by (bit_vector);
    hashes_tell_points_apart(x, y, z, place_seed(seed, a), place_seed(seed, b));
}

/// The second and third coordinates of a feature point are the first ones of
/// the same cell under other seeds: those that differ in `0x9e37` and in
/// `0x51f3`. The first one is the cell's own value.
pub proof fn places_follow_the_seed(
    f: Feature,
    g: Feature,
    h: Feature,
    at: [i32; 3],
    dx: int,
    dy: int,
    dz: int,
    cells: u32,
    seed: u32,
)
    requires
        cells > 0,
        is_feature(f, at, dx, dy, dz, cells, seed),
        is_feature(g, at, dx, dy, dz, cells, seed ^ 0x9e37),
        is_feature(h, at, dx, dy, dz, cells, seed ^ 0x51f3),
    ensures
        f.place[0] == cell_value(f.cell, seed),
        f.place[1] == g.place[0],
        f.place[2] == h.place[0],
        g.place[1] == f.place[0],
        h.place[2] == f.place[0],
        f.cell[0] < cells && f.cell[1] < cells && f.cell[2] < cells,
{
    assert((seed ^ 0x9e37) ^ 0x9e37 == seed && (seed ^ 0x51f3) ^ 0x51f3 == seed) by (bit_vector);
}

/// A cell has one feature point, however it is reached.
pub proof fn cells_have_one_feature(
    f: Feature,
    g: Feature,
    at: [i32; 3],
    there: [i32; 3],
    dx: int,
    dy: int,
    dz: int,
    cells: u32,
    seed: u32,
)
    requires
        cells > 0,
        is_feature(f, at, dx, dy, dz, cells, seed),
        is_feature(g, there, 0, 0, 0, cells, seed),
        there[0] == at[0] + dx && there[1] == at[1] + dy && there[2] == at[2] + dz,
    ensures
        f.cell[0] == g.cell[0] && f.cell[1] == g.cell[1] && f.cell[2] == g.cell[2],
        f.place[0] == g.place[0] && f.place[1] == g.place[1] && f.place[2] == g.place[2],
{
}

/// Texels lie row by row and plane by plane, four bytes each and without a gap:
/// where a row ends the next begins, where a plane ends the next begins, and the
/// channels of a texel follow one another.
pub proof fn texels_lie_row_by_row(n: int, x: int, y: int, z: int, s: Seq<u8>, o: int)
    ensures
        texel_offset(n, 0, 0, 0) == 0,
        texel_offset(n, x + 1, y, z) == texel_offset(n, x, y, z) + 4,
        texel_offset(n, n, y, z) == texel_offset(n, 0, y + 1, z),
        texel_offset(n, x, n, z) == texel_offset(n, x, 0, z + 1),
        texel_bytes(s, o).0 == s[o],
        texel_bytes(s, o).1 == texel_bytes(s, o + 1).0,
        texel_bytes(s, o).2 == texel_bytes(s, o + 1).1,
        texel_bytes(s, o).3 == texel_bytes(s, o + 1).2,
{
    assert((z * n + y) * n + n == (z * n + (y + 1)) * n) by (nonlinear_arith);
    assert(z * n + n == (z + 1) * n) by (nonlinear_arith);
    assert(0 * n == 0) by (nonlinear_arith);
    assert((0 * n + 0) * n == 0) by (nonlinear_arith);
}

} // verus!
