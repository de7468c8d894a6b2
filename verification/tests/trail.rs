use explora::fx_gpu::build_trail_indices;
use explora::trail::{
    emission, next_random, older_slot, pack_ribbons, quad_offset, Emission, Refill, TrailPool,
    TrailSlots, EMITTER_COUNT, EMITTER_FLAP_L, EMITTER_FLAP_R, EMITTER_NOZZLE, EMITTER_TIP_L,
    EMITTER_TIP_R, POOL_N, QUAD_FLOATS, RIBBON_FLOATS, SCAN_PER_EMITTER, VERTEX_FLOATS,
};

fn newest(pool: &TrailPool<u32>) -> Vec<u32> {
    (0..pool.live).map(|k| pool.segs[(pool.head + POOL_N - 1 - k) % POOL_N]).collect()
}

#[test]
fn pools_keep_the_newest_segments() {
    let mut pool = TrailPool::new(0u32);
    assert_eq!(pool.live_count(), 0);
    for s in 1..=3 {
        pool.push(s);
    }
    assert_eq!(newest(&pool), vec![3, 2, 1]);
    for s in 4..=(POOL_N as u32 + 5) {
        pool.push(s);
    }
    assert_eq!(pool.live_count(), POOL_N);
    let kept = newest(&pool);
    assert_eq!(kept[0], POOL_N as u32 + 5);
    assert_eq!(kept[POOL_N - 1], 6);
    pool.has_last = true;
    pool.clear();
    assert_eq!((pool.live_count(), pool.head, pool.has_last), (0, 0, false));
}

#[test]
fn every_segment_is_stepped() {
    let mut pool = TrailPool::new(1u32);
    pool.push(10);
    pool.each(|s| s * 2);
    assert_eq!(pool.segs[0], 20);
    assert!(pool.segs[1..].iter().all(|&s| s == 2));
    assert_eq!(pool.live_count(), 1);
}

#[test]
fn ribbons_show_the_newest_living_segments() {
    let mut pool = TrailPool::new(0u32);
    let mut alive = vec![true; POOL_N];
    for s in 0..10 {
        pool.push(s);
    }
    alive[8] = false;
    assert_eq!(pool.ribbon(&alive), vec![9, 7, 6, 5, 4, 3, 2, 1, 0]);
    for s in 10..2000 {
        pool.push(s);
    }
    // A ribbon has room for so many quads.
    let full = pool.ribbon(&vec![true; POOL_N]);
    assert_eq!(full.len(), 256);
    assert_eq!((full[0], full[255]), (1999, 1744));
    // Nothing beyond the scan is looked at.
    let mut old = vec![false; POOL_N];
    old[1999 - SCAN_PER_EMITTER] = true;
    assert!(pool.ribbon(&old).is_empty());
    old[1999 - SCAN_PER_EMITTER + 1] = true;
    assert_eq!(pool.ribbon(&old), vec![800]);
}

#[test]
fn slots_wrap() {
    assert_eq!(older_slot(5), 4);
    assert_eq!(older_slot(0), POOL_N - 1);
    let mut pool = TrailPool::new(0u32);
    for s in 0..=(POOL_N as u32) {
        pool.push(s);
    }
    assert_eq!(pool.ribbon(&vec![true; POOL_N])[..3], [0, POOL_N - 1, POOL_N - 2]);
}

#[test]
fn emitters_start_before_they_emit() {
    assert_eq!(emission(false, true, true), Emission::Idle);
    assert_eq!(emission(true, false, true), Emission::Start);
    assert_eq!(emission(true, true, true), Emission::Emit);
    assert_eq!(emission(true, true, false), Emission::Idle);
    assert_eq!(
        [EMITTER_NOZZLE, EMITTER_TIP_L, EMITTER_TIP_R, EMITTER_FLAP_L, EMITTER_FLAP_R],
        [0, 1, 2, 3, 4]
    );
}

#[test]
fn jitter_follows_the_generator() {
    // 1 -> 0x2001 -> 0x2001 -> 0x42021
    assert_eq!(next_random(1), 270369);
    assert_eq!(next_random(0), 0);
    let mut seed = 1;
    for _ in 0..1000 {
        seed = next_random(seed);
        assert_ne!(seed, 0);
    }
}

#[test]
fn ribbons_are_packed_at_their_offsets() {
    let mut ribbons: Vec<Vec<i32>> = vec![Vec::new(); EMITTER_COUNT];
    ribbons[1] = (1..=2 * QUAD_FLOATS as i32).collect();
    let packed = pack_ribbons(&ribbons, 0);
    assert_eq!(packed.len(), EMITTER_COUNT * RIBBON_FLOATS);
    assert!(packed[..RIBBON_FLOATS].iter().all(|&v| v == 0));
    let at = |q: usize| quad_offset(1, q);
    assert_eq!(packed[at(0)], 1);
    assert_eq!(packed[at(1)..at(1) + 26], ribbons[1][26..]);
    // The rest repeats the last quad, without density.
    let mut tail = ribbons[1][26..].to_vec();
    tail[7] = 0;
    tail[20] = 0;
    assert_eq!(packed[at(2)..at(2) + 26], tail[..]);
    assert_eq!(packed[at(255)..at(255) + 26], tail[..]);
    // The second quad of the second emitter is vertex 514 and 515.
    assert_eq!(at(1), 514 * VERTEX_FLOATS);
    assert!(build_trail_indices().contains(&515));
}

#[test]
fn buffers_are_packed_when_the_simulation_moves() {
    let mut slots = TrailSlots::new(2);
    assert_eq!(slots.update(0, false, true), Refill::Leave);
    assert_eq!(slots.update(0, true, false), Refill::Pack);
    assert_eq!(slots.update(0, true, false), Refill::Shift);
    assert_eq!(slots.update(0, true, true), Refill::Pack);
    assert_eq!(slots.update(1, true, false), Refill::Pack);
    assert_eq!(slots.update(2, true, true), Refill::Leave);
    assert_eq!(slots.filled, vec![true, true]);
}
