use explora::noise::{
    generate_base, generate_curl, generate_detail, hash3, octave, rand_cell, value_corners,
    worley_features, wrap_cell, BASE_N, CURL_N, DETAIL_N,
};

const UNIT: f32 = 16777216.0;

fn fade(t: f32) -> f32 {
    t * t * (3.0 - 2.0 * t)
}

fn lerp(a: f32, b: f32, t: f32) -> f32 {
    a + (b - a) * t
}

fn value_noise(x: f32, y: f32, z: f32, cells: u32, seed: u32) -> f32 {
    let at = [x.floor() as i32, y.floor() as i32, z.floor() as i32];
    let c: Vec<f32> =
        value_corners(at, cells, seed).into_iter().map(|v| v as f32 / UNIT).collect();
    let (u, v, w) =
        (fade(x - at[0] as f32), fade(y - at[1] as f32), fade(z - at[2] as f32));
    let near = lerp(lerp(c[0], c[1], u), lerp(c[2], c[3], u), v);
    let far = lerp(lerp(c[4], c[5], u), lerp(c[6], c[7], u), v);
    lerp(near, far, w)
}

fn worley(x: f32, y: f32, z: f32, cells: u32, seed: u32) -> f32 {
    let at = [x.floor() as i32, y.floor() as i32, z.floor() as i32];
    let mut best = 3.0f32;
    for f in worley_features(at, cells, seed) {
        let p = |axis: usize| f.cell[axis] as f32 + f.place[axis] as f32 / UNIT;
        let d = ((x - p(0)).powi(2) + (y - p(1)).powi(2) + (z - p(2)).powi(2)).sqrt();
        best = best.min(d);
    }
    (best / 1.75).clamp(0.0, 1.0)
}

fn perlin_worley(x: f32, y: f32, z: f32, cells: u32, seed: u32) -> f32 {
    let (mut acc, mut amp, mut tot) = (0.0, 0.5, 0.0);
    for o in 0..3 {
        let (period, seed) = octave(cells, o, seed);
        let s = (1 << o) as f32;
        acc += amp * value_noise(x * s, y * s, z * s, period, seed);
        tot += amp;
        amp *= 0.5;
    }
    let p = acc / tot.max(1e-6);
    let inv = 1.0 - worley(x, y, z, cells * 2, seed ^ 0xabcd);
    (p * 0.5 + p * 0.5 * inv + p * 0.25).clamp(0.0, 1.0)
}

fn byte(v: f32) -> u8 {
    (v.clamp(0.0, 1.0) * 255.0) as u8
}

#[test]
fn volumes_have_range_and_size() {
    let b = generate_base(|x, y, z| {
        let p = |v: u32| v as f32 / BASE_N as f32 * 4.0;
        let (x, y, z) = (p(x), p(y), p(z));
        (
            byte(perlin_worley(x, y, z, 4, 7)),
            byte(1.0 - worley(x * 2.0, y * 2.0, z * 2.0, 8, 11)),
            byte(1.0 - worley(x * 4.0, y * 4.0, z * 4.0, 16, 13)),
            byte(1.0 - worley(x * 8.0, y * 8.0, z * 8.0, 32, 17)),
        )
    });
    assert_eq!(b.len(), BASE_N * BASE_N * BASE_N * 4);
    let min = *b.iter().min().unwrap();
    let max = *b.iter().max().unwrap();
    assert!(max > min + 20, "min={min} max={max}");
    let d = generate_detail(|x, y, z| {
        let p = |v: u32| v as f32 / DETAIL_N as f32 * 4.0;
        let (x, y, z) = (p(x), p(y), p(z));
        (
            byte(1.0 - worley(x, y, z, 4, 31)),
            byte(1.0 - worley(x * 2.0, y * 2.0, z * 2.0, 8, 37)),
            byte(1.0 - worley(x * 4.0, y * 4.0, z * 4.0, 16, 41)),
        )
    });
    assert_eq!(d.len(), DETAIL_N * DETAIL_N * DETAIL_N * 4);
    let c = generate_curl(|x, y| {
        let (x, y) = (x as f32 / CURL_N as f32 * 6.0, y as f32 / CURL_N as f32 * 6.0);
        let e = 0.35;
        let n = value_noise(x, y, 1.7, 6, 91);
        let gx = (value_noise(x + e, y, 1.7, 6, 91) - n) / e;
        let gy = (value_noise(x, y + e, 1.7, 6, 91) - n) / e;
        let pack = |v: f32| ((v.clamp(-1.0, 1.0) * 0.5 + 0.5) * 255.0) as u8;
        (pack(-gy * 0.5), pack(gx * 0.5))
    });
    assert_eq!(c.len(), CURL_N * CURL_N * 4);
    assert!(d.chunks_exact(4).all(|t| t[3] == 255));
    assert!(c.chunks_exact(4).all(|t| t[2] == 0 && t[3] == 255));
}

#[test]
fn noise_tileable_integers_match() {
    let a = value_noise(0.0, 0.0, 0.0, 4, 7);
    let b = value_noise(4.0, 0.0, 0.0, 4, 7);
    assert!((a - b).abs() < 1e-5, "{a} vs {b}");
}

#[test]
fn lattice_hash_has_known_values() {
    assert_eq!(hash3(0, 0, 0, 0), 0);
    let mut h = 1u32.wrapping_mul(374761393)
        ^ 2u32.wrapping_mul(668265263)
        ^ 3u32.wrapping_mul(2147483647)
        ^ 4u32.wrapping_mul(1442695041);
    h = (h ^ (h >> 13)).wrapping_mul(1274126177);
    h ^= h >> 16;
    assert_eq!(hash3(1, 2, 3, 4), h);
    assert_eq!(rand_cell([1, 2, 3], 4), h & 0xff_ffff);
}

#[test]
fn cells_wrap_both_ways() {
    assert_eq!(wrap_cell(0, -1, 4), 3);
    assert_eq!(wrap_cell(4, 0, 4), 0);
    assert_eq!(wrap_cell(-9, 1, 4), 0);
    assert_eq!(wrap_cell(i32::MAX, 1, 4), 0);
    assert_eq!(value_corners([0, 0, 0], 4, 7), value_corners([4, -4, 8], 4, 7));
    assert_eq!(worley_features([1, 2, 3], 4, 7), worley_features([5, -2, 7], 4, 7));
    assert_eq!(octave(4, 2, 7), (16, 209));
    assert_eq!(octave(32, 2, 7), (64, 209));
}

#[test]
fn texels_are_stored_in_order() {
    let b = generate_base(|x, y, z| (x as u8, y as u8, z as u8, 9));
    let n = BASE_N;
    for (x, y, z) in [(0, 0, 0), (31, 0, 0), (3, 5, 7), (31, 31, 31)] {
        let o = (z * n * n + y * n + x) * 4;
        assert_eq!(b[o..o + 4], [x as u8, y as u8, z as u8, 9]);
    }
    let c = generate_curl(|x, y| (x as u8, y as u8));
    let o = (5 * CURL_N + 3) * 4;
    assert_eq!(c[o..o + 4], [3, 5, 0, 255]);
}
