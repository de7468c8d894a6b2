//! Vapour trails: one ring of segments per emitter, and the ribbons that are
//! drawn from them.
use crate::fx_gpu;
use crate::fx_gpu::TRAIL_MAX_QUADS_PER_EMITTER;
use vstd::prelude::*;

verus! {

pub const EMITTER_NOZZLE: usize = 0;

pub const EMITTER_TIP_L: usize = 1;

pub const EMITTER_TIP_R: usize = 2;

pub const EMITTER_FLAP_L: usize = 3;

pub const EMITTER_FLAP_R: usize = 4;

pub const EMITTER_COUNT: usize = 5;

/// Segments per emitter: minutes at distance-based emission.
pub const POOL_N: usize = 8192;

/// Segments that are looked at for one ribbon.
pub const SCAN_PER_EMITTER: usize = 1200;

/// Numbers in a vertex of a ribbon.
pub const VERTEX_FLOATS: usize = 13;

/// Numbers in a quad of a ribbon: two vertices, one per edge.
pub const QUAD_FLOATS: usize = 26;

/// Numbers in the ribbon of one emitter.
pub const RIBBON_FLOATS: usize = 6656;

/// Place of the density within a vertex.
pub const DENSITY_FLOAT: usize = 7;

/// Slot of the segment that is `k` older than the newest.
pub open spec fn slot(head: int, k: int) -> int {
    (head + POOL_N - 1 - k) % POOL_N as int
}

/// A ring of segments. Pushing onto a full ring drops its oldest segment.
pub struct TrailPool<S> {
    pub segs: Vec<S>,
    /// Slot that the next segment goes to.
    pub head: usize,
    pub live: usize,
    /// The place of the last emission is known.
    pub has_last: bool,
}

impl<S: Copy> TrailPool<S> {
    pub open spec fn wf(self) -> bool {
        &&& self.segs.len() == POOL_N
        &&& self.head < POOL_N
        &&& self.live <= POOL_N
    }

    /// The segments of the ring, newest first.
    pub open spec fn newest(self) -> Seq<S> {
        Seq::new(self.live as nat, |k: int| self.segs[slot(self.head as int, k)])
    }

    pub fn new(segment: S) -> (r: Self)
        ensures
            r.wf(),
            r.newest() == Seq::<S>::empty(),
            r.segs@ == Seq::new(POOL_N as nat, |i: int| segment),
            r.head == 0,
            !r.has_last,
    {
        let mut segs: Vec<S> = Vec::with_capacity(POOL_N);
        let mut i: usize = 0;
        while i < POOL_N
            invariant
                i <= POOL_N,
                segs@ == Seq::new(i as nat, |j: int| segment),
            decreases POOL_N - i,
        {
            segs.push(segment);
            i += 1;
            assert(segs@ =~= Seq::new(i as nat, |j: int| segment));
        }
        let r = TrailPool { segs, head: 0, live: 0, has_last: false };
        assert(r.newest() =~= Seq::<S>::empty());
        r
    }

    /// Forget every segment and the last emission.
    pub fn clear(&mut self)
        requires
            old(self).wf(),
        ensures
            final(self).wf(),
            final(self).newest() == Seq::<S>::empty(),
            final(self).segs == old(self).segs,
            final(self).head == 0,
            !final(self).has_last,
    {
        self.head = 0;
        self.live = 0;
        self.has_last = false;
        assert(self.newest() =~= Seq::<S>::empty());
    }

    pub fn push(&mut self, s: S)
        requires
            old(self).wf(),
        ensures
            final(self).wf(),
            final(self).newest() == pushed(old(self).newest(), s),
            final(self).segs@ == old(self).segs@.update(old(self).head as int, s),
            final(self).head == (old(self).head + 1) % POOL_N as int,
            final(self).has_last == old(self).has_last,
    {
        let head: usize = self.head;
        let ghost before = self.newest();
        self.segs.set(head, s);
        self.head = (head + 1) % POOL_N;
        if self.live < POOL_N {
            self.live = self.live + 1;
        }
        proof {
            let after = self.newest();
            assert forall|k: int| 0 <= k < self.live implies after[k] == pushed(before, s)[k] by {
                let h = self.head as int;
                if k == 0 {
                    assert(slot(h, 0) == head) by {
                        slot_values(h, 0);
                    }
                } else {
                    slot_values(h, k);
                    slot_values(head as int, k - 1);
                    assert(slot(h, k) == slot(head as int, k - 1));
                    assert(slot(head as int, k - 1) != head);
                }
            }
            assert(after =~= pushed(before, s));
        }
    }

    /// Segments that have been pushed and not been overwritten.
    pub fn live_count(&self) -> (r: usize)
        requires
            self.wf(),
        ensures
            r == self.newest().len(),
    {
        self.live
    }

    /// Replace each segment by what `f` makes of it.
    pub fn each<F: Fn(S) -> S>(&mut self, f: F)
        requires
            old(self).wf(),
            forall|s: S| call_requires(f, (s,)),
        ensures
            final(self).wf(),
            forall|i: int|
                0 <= i < POOL_N ==> call_ensures(
                    f,
                    (old(self).segs[i],),
                    #[trigger] final(self).segs[i],
                ),
            final(self).head == old(self).head,
            final(self).live == old(self).live,
            final(self).has_last == old(self).has_last,
    {
        let mut i: usize = 0;
        while i < POOL_N
            invariant
                i <= POOL_N,
                self.wf(),
                forall|s: S| call_requires(f, (s,)),
                forall|j: int|
                    0 <= j < i ==> call_ensures(f, (old(self).segs[j],), #[trigger] self.segs[j]),
                forall|j: int| i <= j < POOL_N ==> #[trigger] self.segs[j] == old(self).segs[j],
                self.head == old(self).head,
                self.live == old(self).live,
                self.has_last == old(self).has_last,
            decreases POOL_N - i,
        {
            let s: S = self.segs[i];
            let t: S = f(s);
            self.segs.set(i, t);
            i += 1;
        }
    }

    /// Slots of the ribbon's quads, newest first: those of the scanned
    /// segments that are alive, as far as the ribbon has room.
    pub fn ribbon(&self, alive: &Vec<bool>) -> (r: Vec<usize>)
        requires
            self.wf(),
            alive.len() == POOL_N,
        ensures
            r@.map_values(|i: usize| i as int) == quads(
                alive@,
                self.head as int,
                self.live as int,
            ),
    {
        let mut out: Vec<usize> = Vec::new();
        let scan: usize = if self.live < SCAN_PER_EMITTER {
            self.live
        } else {
            SCAN_PER_EMITTER
        };
        let ghost head = self.head as int;
        let mut k: usize = 0;
        while k < scan && out.len() < TRAIL_MAX_QUADS_PER_EMITTER
            invariant
                self.wf(),
                alive.len() == POOL_N,
                head == self.head,
                scan <= SCAN_PER_EMITTER,
                k <= scan,
                out.len() <= TRAIL_MAX_QUADS_PER_EMITTER,
                out@.map_values(|i: usize| i as int) == living(alive@, head, k as int),
            decreases scan - k,
        {
            let i: usize = (self.head + POOL_N - 1 - k) % POOL_N;
            let ghost before = out@;
            if alive[i] {
                out.push(i);
                assert(out@.map_values(|i: usize| i as int) =~= before.map_values(
                    |i: usize| i as int,
                ).push(i as int));
            }
            k += 1;
        }
        proof {
            let all = living(alive@, head, scan as int);
            let seen = living(alive@, head, k as int);
            living_prefix(alive@, head, k as int, scan as int);
            assert(out@.map_values(|i: usize| i as int).len() == out.len());
            if k < scan {
                assert(seen.len() == TRAIL_MAX_QUADS_PER_EMITTER);
            }
            assert(all.take(seen.len() as int) =~= seen);
            assert(out@.map_values(|i: usize| i as int) =~= quads(
                alive@,
                head,
                self.live as int,
            ));
        }
        out
    }
}

/// The segments after a push, newest first.
pub open spec fn pushed<S>(newest: Seq<S>, s: S) -> Seq<S> {
    let kept = if newest.len() < POOL_N {
        newest
    } else {
        newest.take(POOL_N - 1)
    };
    seq![s] + kept
}

/// Slots of the living among the `n` newest segments, newest first.
pub open spec fn living(alive: Seq<bool>, head: int, n: int) -> Seq<int>
    decreases n,
{
    if n <= 0 {
        Seq::empty()
    } else {
        let rest = living(alive, head, n - 1);
        if alive[slot(head, n - 1)] {
            rest.push(slot(head, n - 1))
        } else {
            rest
        }
    }
}

/// Slots of a ribbon's quads.
pub open spec fn quads(alive: Seq<bool>, head: int, live: int) -> Seq<int> {
    let all = living(
        alive,
        head,
        if live < SCAN_PER_EMITTER {
            live
        } else {
            SCAN_PER_EMITTER as int
        },
    );
    if all.len() < TRAIL_MAX_QUADS_PER_EMITTER {
        all
    } else {
        all.take(TRAIL_MAX_QUADS_PER_EMITTER as int)
    }
}

proof fn slot_values(head: int, k: int)
    requires
        0 <= head < POOL_N,
        0 <= k < POOL_N,
    ensures
        slot(head, k) == if head - 1 - k >= 0 {
            head - 1 - k
        } else {
            head - 1 - k + POOL_N
        },
{
}

proof fn living_prefix(alive: Seq<bool>, head: int, m: int, n: int)
    requires
        0 <= m <= n,
    ensures
        living(alive, head, m).len() <= living(alive, head, n).len(),
        living(alive, head, n).take(living(alive, head, m).len() as int) == living(alive, head, m),
    decreases n - m,
{
    let a = living(alive, head, m);
    if m < n {
        living_prefix(alive, head, m, n - 1);
        let b = living(alive, head, n - 1);
        let c = living(alive, head, n);
        assert(c.take(a.len() as int) =~= b.take(a.len() as int));
    } else {
        assert(a.take(a.len() as int) =~= a);
    }
}

/// The segments after several pushes, newest first.
pub open spec fn pushed_all<S>(newest: Seq<S>, ss: Seq<S>) -> Seq<S>
    decreases ss.len(),
{
    if ss.len() == 0 {
        newest
    } else {
        pushed(pushed_all(newest, ss.drop_last()), ss.last())
    }
}

/// A ring keeps the newest segments and no others: after any number of pushes
/// onto an empty one, it holds the last of them in reverse order, as many as
/// it has room for.
pub proof fn pools_keep_the_newest<S>(ss: Seq<S>)
    ensures
        pushed_all(Seq::empty(), ss) == Seq::new(
            if ss.len() < POOL_N {
                ss.len()
            } else {
                POOL_N as nat
            },
            |k: int| ss[ss.len() - 1 - k],
        ),
    decreases ss.len(),
{
    let kept = Seq::new(
        if ss.len() < POOL_N {
            ss.len()
        } else {
            POOL_N as nat
        },
        |k: int| ss[ss.len() - 1 - k],
    );
    if ss.len() > 0 {
        pools_keep_the_newest(ss.drop_last());
    }
    assert(pushed_all(Seq::empty(), ss) =~= kept);
}

/// Each quad of a ribbon shows a living segment of the ring, and a newer
/// quad shows a newer segment: no segment is drawn twice.
pub proof fn ribbons_show_living_segments(alive: Seq<bool>, head: int, live: int)
    requires
        alive.len() == POOL_N,
        0 <= head < POOL_N,
        0 <= live <= POOL_N,
    ensures
        quads(alive, head, live).len() <= TRAIL_MAX_QUADS_PER_EMITTER,
        forall|q: int|
            0 <= q < quads(alive, head, live).len() ==> {
                let i = #[trigger] quads(alive, head, live)[q];
                &&& 0 <= i < POOL_N
                &&& alive[i]
                &&& exists|k: int| 0 <= k < live && i == #[trigger] slot(head, k)
            },
        quads(alive, head, live).no_duplicates(),
{
    let n = if live < SCAN_PER_EMITTER {
        live
    } else {
        SCAN_PER_EMITTER as int
    };
    living_facts(alive, head, n);
    let all = living(alive, head, n);
    let qs = quads(alive, head, live);
    assert forall|q: int| 0 <= q < qs.len() implies {
        let i = #[trigger] qs[q];
        &&& 0 <= i < POOL_N
        &&& alive[i]
        &&& exists|k: int| 0 <= k < live && i == #[trigger] slot(head, k)
    } by {
        assert(qs[q] == all[q]);
        let k = choose|k: int| 0 <= k < n && all[q] == #[trigger] slot(head, k);
        assert(0 <= k < live && qs[q] == slot(head, k));
        slot_values(head, k);
    }
}

proof fn living_facts(alive: Seq<bool>, head: int, n: int)
    requires
        alive.len() == POOL_N,
        0 <= head < POOL_N,
        0 <= n <= POOL_N,
    ensures
        forall|q: int|
            0 <= q < living(alive, head, n).len() ==> alive[#[trigger] living(alive, head, n)[q]]
                && exists|k: int| 0 <= k < n && living(alive, head, n)[q] == #[trigger] slot(head, k),
        living(alive, head, n).no_duplicates(),
    decreases n,
{
    if n > 0 {
        living_facts(alive, head, n - 1);
        let rest = living(alive, head, n - 1);
        let all = living(alive, head, n);
        let last = slot(head, n - 1);
        assert forall|q: int| 0 <= q < all.len() implies alive[#[trigger] all[q]] && exists|k: int|
            0 <= k < n && all[q] == #[trigger] slot(head, k) by {
            if q < rest.len() {
                assert(all[q] == rest[q]);
                let k = choose|k: int| 0 <= k < n - 1 && rest[q] == #[trigger] slot(head, k);
                assert(0 <= k < n && all[q] == slot(head, k));
            } else {
                assert(0 <= n - 1 < n && all[q] == slot(head, n - 1));
            }
        }
        assert forall|p: int, q: int| 0 <= p < all.len() && 0 <= q < all.len() && p != q implies all[p]
            != all[q] by {
            if p < rest.len() && q < rest.len() {
                assert(rest[p] != rest[q]);
            } else {
                let o = if p < rest.len() { p } else { q };
                assert(all[o] == rest[o]);
                let k = choose|k: int| 0 <= k < n - 1 && rest[o] == #[trigger] slot(head, k);
                slot_values(head, k);
                slot_values(head, n - 1);
            }
        }
    }
}

/// Slot of the segment before the one in slot `i`.
pub fn older_slot(i: usize) -> (r: usize)
    requires
        i < POOL_N,
    ensures
        r == (i + POOL_N - 1) % POOL_N as int,
{
    (i + POOL_N - 1) % POOL_N
}

// ---------------------------------------------------------------------------
// Emission
// ---------------------------------------------------------------------------

/// What an emitter does in a step.
#[derive(Clone, Copy, Debug, PartialEq, Eq, Structural)]
pub enum Emission {
    /// Nothing.
    Idle,
    /// Remember where the emitter is.
    Start,
    /// Push a segment, and remember where the emitter is.
    Emit,
}

/// An emitter that is too weak does nothing. Otherwise it first remembers its
/// place, then emits each time it is far enough from the place it remembers.
pub fn emission(strong: bool, has_last: bool, far: bool) -> (r: Emission)
    ensures
        r == (if !strong {
            Emission::Idle
        } else if !has_last {
            Emission::Start
        } else if far {
            Emission::Emit
        } else {
            Emission::Idle
        }),
{
    if !strong {
        Emission::Idle
    } else if !has_last {
        Emission::Start
    } else if far {
        Emission::Emit
    } else {
        Emission::Idle
    }
}

/// One step of the generator behind emission jitter.
pub open spec fn xorshift(seed: u32) -> u32 {
    let a = seed ^ (seed << 13);
    let b = a ^ (a >> 17);
    b ^ (b << 5)
}

/// Advance the generator behind emission jitter.
pub fn next_random(seed: u32) -> (r: u32)
    ensures
        r == xorshift(seed),
{
    let a: u32 = seed ^ (seed << 13);
    let b: u32 = a ^ (a >> 17);
    b ^ (b << 5)
}

/// The generator never sticks at zero, and never sends two states to one.
pub proof fn jitter_never_stops(a: u32, b: u32)
    ensures
        a != 0 ==> xorshift(a) != 0,
        a != b ==> xorshift(a) != xorshift(b),
{
    assert(a != b ==> a ^ (a << 13) != b ^ (b << 13)) by (bit_vector);
    let a1 = a ^ (a << 13);
    let b1 = b ^ (b << 13);
    assert(a1 != b1 ==> a1 ^ (a1 >> 17) != b1 ^ (b1 >> 17)) by (bit_vector);
    let a2 = a1 ^ (a1 >> 17);
    let b2 = b1 ^ (b1 >> 17);
    assert(a2 != b2 ==> a2 ^ (a2 << 5) != b2 ^ (b2 << 5)) by (bit_vector);
    assert(a != 0 ==> a ^ (a << 13) != 0) by (bit_vector);
    assert(a1 != 0 ==> a1 ^ (a1 >> 17) != 0) by (bit_vector);
    assert(a2 != 0 ==> a2 ^ (a2 << 5) != 0) by (bit_vector);
}

// ---------------------------------------------------------------------------
// Packing
// ---------------------------------------------------------------------------

/// Numbers of one emitter's ribbon. What the quads do not fill repeats the
/// last quad with no density, so that the unused part is collapsed at its end.
pub open spec fn ribbon_block<T>(quads: Seq<T>, zero: T) -> Seq<T> {
    Seq::new(
        RIBBON_FLOATS as nat,
        |i: int|
            if i < quads.len() {
                quads[i]
            } else if quads.len() == 0 || i % 26 == DENSITY_FLOAT || i % 26 == VERTEX_FLOATS
                + DENSITY_FLOAT {
                zero
            } else {
                quads[quads.len() - 26 + i % 26]
            },
    )
}

/// A ribbon is made of whole quads, and fits.
pub open spec fn is_ribbon<T>(quads: Seq<T>) -> bool {
    quads.len() % 26 == 0 && quads.len() <= RIBBON_FLOATS
}

/// Numbers of the first `n` ribbons.
pub open spec fn ribbon_blocks<T>(ribbons: Seq<Vec<T>>, zero: T, n: int) -> Seq<T>
    decreases n,
{
    if n <= 0 {
        Seq::empty()
    } else {
        ribbon_blocks(ribbons, zero, n - 1) + ribbon_block(ribbons[n - 1]@, zero)
    }
}

fn push_ribbon<T: Copy>(out: &mut Vec<T>, quads: &Vec<T>, zero: T)
    requires
        is_ribbon(quads@),
    ensures
        final(out)@ == old(out)@ + ribbon_block(quads@, zero),
{
    let n: usize = quads.len();
    let mut i: usize = 0;
    while i < RIBBON_FLOATS
        invariant
            i <= RIBBON_FLOATS,
            n == quads.len(),
            is_ribbon(quads@),
            out@ == old(out)@ + ribbon_block(quads@, zero).take(i as int),
        decreases RIBBON_FLOATS - i,
    {
        let c: usize = i % QUAD_FLOATS;
        let ghost before = out@;
        if i < n {
            out.push(quads[i]);
        } else if n == 0 || c == DENSITY_FLOAT || c == VERTEX_FLOATS + DENSITY_FLOAT {
            out.push(zero);
        } else {
            out.push(quads[n - QUAD_FLOATS + c]);
        }
        let ghost block = ribbon_block(quads@, zero);
        assert(out@ == before.push(block[i as int]));
        assert(block.take(i + 1) =~= block.take(i as int).push(block[i as int]));
        i += 1;
        assert(out@ =~= old(out)@ + block.take(i as int));
    }
    assert(ribbon_block(quads@, zero).take(i as int) =~= ribbon_block(quads@, zero));
}

/// Pack the quads of all emitters into one buffer.
pub fn pack_ribbons<T: Copy>(ribbons: &Vec<Vec<T>>, zero: T) -> (r: Vec<T>)
    requires
        ribbons.len() == EMITTER_COUNT,
        forall|e: int| 0 <= e < EMITTER_COUNT ==> is_ribbon((#[trigger] ribbons[e])@),
    ensures
        r@ == ribbon_blocks(ribbons@, zero, EMITTER_COUNT as int),
{
    let mut out: Vec<T> = Vec::new();
    let mut e: usize = 0;
    while e < EMITTER_COUNT
        invariant
            e <= EMITTER_COUNT,
            ribbons.len() == EMITTER_COUNT,
            forall|e: int| 0 <= e < EMITTER_COUNT ==> is_ribbon((#[trigger] ribbons[e])@),
            out@ == ribbon_blocks(ribbons@, zero, e as int),
        decreases EMITTER_COUNT - e,
    {
        push_ribbon(&mut out, &ribbons[e], zero);
        e += 1;
    }
    out
}

/// First number of quad `q` of emitter `e` in the packed buffer.
pub fn quad_offset(e: usize, q: usize) -> (r: usize)
    requires
        e < EMITTER_COUNT,
        q < TRAIL_MAX_QUADS_PER_EMITTER,
    ensures
        r == (e * 256 + q) * 26,
{
    (e * TRAIL_MAX_QUADS_PER_EMITTER + q) * QUAD_FLOATS
}

proof fn blocks_len<T>(ribbons: Seq<Vec<T>>, zero: T, n: int)
    requires
        0 <= n,
    ensures
        ribbon_blocks(ribbons, zero, n).len() == n * 6656,
    decreases n,
{
    if n > 0 {
        blocks_len(ribbons, zero, n - 1);
    }
}

proof fn block_at<T>(ribbons: Seq<Vec<T>>, zero: T, n: int, e: int, i: int)
    requires
        0 <= e < n,
        0 <= i < RIBBON_FLOATS,
    ensures
        ribbon_blocks(ribbons, zero, n)[e * 6656 + i] == ribbon_block(ribbons[e]@, zero)[i],
    decreases n,
{
    blocks_len(ribbons, zero, n - 1);
    if e < n - 1 {
        block_at(ribbons, zero, n - 1, e, i);
    }
}

/// The packed buffer holds each quad of each emitter at its offset. Its two
/// vertices are those that the index pattern of the emitter draws, so no
/// ribbon reads another's numbers.
pub proof fn quads_stand_at_their_offsets<T>(ribbons: Seq<Vec<T>>, zero: T, e: int, q: int, c: int)
    requires
        ribbons.len() == EMITTER_COUNT,
        forall|e: int| 0 <= e < EMITTER_COUNT ==> is_ribbon((#[trigger] ribbons[e])@),
        0 <= e < EMITTER_COUNT,
        0 <= q < TRAIL_MAX_QUADS_PER_EMITTER,
        0 <= c < QUAD_FLOATS,
        q * 26 < ribbons[e]@.len(),
    ensures
        ribbon_blocks(ribbons, zero, EMITTER_COUNT as int)[(e * 256 + q) * 26 + c]
            == ribbons[e]@[q * 26 + c],
        (e * 256 + q) * 26 == (e * fx_gpu::TRAIL_VERTS_PER_EMITTER + 2 * q) * 13,
{
    let quads = ribbons[e]@;
    assert(is_ribbon(quads));
    assert(q * 26 + c < quads.len()) by {
        let m = quads.len() as int / 26;
        assert(quads.len() == 26 * m);
    }
    block_at(ribbons, zero, EMITTER_COUNT as int, e, q * 26 + c);
}

/// Where a ribbon ends, nothing is drawn: the numbers behind its last quad
/// have no density and stay at the place of that quad.
pub proof fn unused_quads_are_collapsed<T>(ribbons: Seq<Vec<T>>, zero: T, e: int, q: int)
    requires
        ribbons.len() == EMITTER_COUNT,
        forall|e: int| 0 <= e < EMITTER_COUNT ==> is_ribbon((#[trigger] ribbons[e])@),
        0 <= e < EMITTER_COUNT,
        0 <= q < TRAIL_MAX_QUADS_PER_EMITTER,
        0 < ribbons[e]@.len() <= q * 26,
    ensures
        forall|c: int|
            0 <= c < QUAD_FLOATS ==> #[trigger] ribbon_blocks(ribbons, zero, EMITTER_COUNT as int)[(e
                * 256 + q) * 26 + c] == if c == DENSITY_FLOAT || c == VERTEX_FLOATS + DENSITY_FLOAT {
                zero
            } else {
                ribbons[e]@[ribbons[e]@.len() - 26 + c]
            },
{
    assert forall|c: int| 0 <= c < QUAD_FLOATS implies #[trigger] ribbon_blocks(
        ribbons,
        zero,
        EMITTER_COUNT as int,
    )[(e * 256 + q) * 26 + c] == if c == DENSITY_FLOAT || c == VERTEX_FLOATS + DENSITY_FLOAT {
        zero
    } else {
        ribbons[e]@[ribbons[e]@.len() - 26 + c]
    } by {
        block_at(ribbons, zero, EMITTER_COUNT as int, e, q * 26 + c);
        assert((q * 26 + c) % 26 == c);
    }
}

// ---------------------------------------------------------------------------
// Refilling
// ---------------------------------------------------------------------------

/// What becomes of a frame's packed ribbons.
#[derive(Clone, Copy, Debug, PartialEq, Eq, Structural)]
pub enum Refill {
    /// They are packed anew, relative to the frame's origin.
    Pack,
    /// They are drawn as they are, shifted from the origin they were packed at.
    Shift,
    /// They are not drawn, or there is no such buffer.
    Leave,
}

/// Buffers of packed ribbons, one per frame in flight.
pub struct TrailSlots {
    pub filled: Vec<bool>,
}

impl TrailSlots {
    pub fn new(slots: usize) -> (r: Self)
        ensures
            r.filled@ == Seq::new(slots as nat, |i: int| false),
    {
        let mut filled: Vec<bool> = Vec::new();
        let mut i: usize = 0;
        while i < slots
            invariant
                i <= slots,
                filled@ == Seq::new(i as nat, |j: int| false),
            decreases slots - i,
        {
            filled.push(false);
            i += 1;
            assert(filled@ =~= Seq::new(i as nat, |j: int| false));
        }
        TrailSlots { filled }
    }

    /// Only presented frames draw ribbons. A buffer is packed when the
    /// simulation has stepped, and on its first use.
    pub fn update(&mut self, slot: usize, presented: bool, sim_stepped: bool) -> (r: Refill)
        ensures
            r == (if !presented || slot >= old(self).filled.len() {
                Refill::Leave
            } else if sim_stepped || !old(self).filled[slot as int] {
                Refill::Pack
            } else {
                Refill::Shift
            }),
            final(self).filled@ == if r == Refill::Pack {
                old(self).filled@.update(slot as int, true)
            } else {
                old(self).filled@
            },
    {
        if !presented || slot >= self.filled.len() {
            return Refill::Leave;
        }
        if sim_stepped || !self.filled[slot] {
            self.filled.set(slot, true);
            Refill::Pack
        } else {
            Refill::Shift
        }
    }
}

/// How many segments are newer than the one in a slot.
pub open spec fn age(head: int, i: int) -> int {
    (head - 1 - i) % 8192
}

proof fn living_by_age(alive: Seq<bool>, head: int, n: int)
    requires
        alive.len() == POOL_N,
        0 <= head < POOL_N,
        0 <= n <= POOL_N,
    ensures
        forall|q: int|
            0 <= q < living(alive, head, n).len() ==> {
                let i = #[trigger] living(alive, head, n)[q];
                0 <= i < POOL_N && age(head, i) < n
            },
        forall|p: int, q: int|
            0 <= p < q < living(alive, head, n).len() ==> age(
                head,
                #[trigger] living(alive, head, n)[p],
            ) < age(head, #[trigger] living(alive, head, n)[q]),
        forall|i: int|
            0 <= i < POOL_N && #[trigger] alive[i] && age(head, i) < n ==> living(
                alive,
                head,
                n,
            ).contains(i),
    decreases n,
{
    if n > 0 {
        living_by_age(alive, head, n - 1);
        let rest = living(alive, head, n - 1);
        let all = living(alive, head, n);
        let last = slot(head, n - 1);
        slot_values(head, n - 1);
        assert(age(head, last) == n - 1);
        assert forall|i: int| 0 <= i < POOL_N && #[trigger] alive[i] && age(head, i) < n implies all
            .contains(i) by {
            if age(head, i) < n - 1 {
                let q = choose|q: int| 0 <= q < rest.len() && rest[q] == i;
                assert(all[q] == rest[q]);
            } else {
                assert(i == last);
                assert(all[rest.len() as int] == i);
            }
        }
        assert forall|q: int| 0 <= q < all.len() implies {
            let i = #[trigger] all[q];
            0 <= i < POOL_N && age(head, i) < n
        } by {
            if q < rest.len() {
                assert(all[q] == rest[q]);
            }
        }
        assert forall|p: int, q: int| 0 <= p < q < all.len() implies age(head, #[trigger] all[p])
            < age(head, #[trigger] all[q]) by {
            assert(all[p] == rest[p]);
            if q < rest.len() {
                assert(all[q] == rest[q]);
            }
        }
    }
}

/// A ribbon runs from the newest segment to older ones and leaves out none:
/// a living segment that is not drawn is older than the 1200 newest, or than
/// all of the 256 that are drawn.
pub proof fn ribbons_leave_out_nothing(alive: Seq<bool>, head: int, live: int)
    requires
        alive.len() == POOL_N,
        0 <= head < POOL_N,
        0 <= live <= POOL_N,
    ensures
        forall|p: int, q: int|
            0 <= p < q < quads(alive, head, live).len() ==> age(
                head,
                #[trigger] quads(alive, head, live)[p],
            ) < age(head, #[trigger] quads(alive, head, live)[q]),
        forall|i: int|
            0 <= i < POOL_N && #[trigger] alive[i] && age(head, i) < live && age(head, i) < 1200
                ==> quads(alive, head, live).contains(i) || quads(alive, head, live).len() == 256
                && age(head, quads(alive, head, live)[255]) < age(head, i),
        forall|q: int|
            0 <= q < quads(alive, head, live).len() ==> age(
                head,
                #[trigger] quads(alive, head, live)[q],
            ) < 1200,
{
    let n = if live < SCAN_PER_EMITTER {
        live
    } else {
        SCAN_PER_EMITTER as int
    };
    living_by_age(alive, head, n);
    let all = living(alive, head, n);
    let qs = quads(alive, head, live);
    assert forall|q: int| 0 <= q < qs.len() implies #[trigger] qs[q] == all[q] by {}
    assert forall|i: int|
        0 <= i < POOL_N && #[trigger] alive[i] && age(head, i) < live && age(head, i)
            < 1200 implies qs.contains(i) || qs.len() == 256 && age(head, qs[255]) < age(
        head,
        i,
    ) by {
        assert(all.contains(i));
        let q = choose|q: int| 0 <= q < all.len() && all[q] == i;
        if q < qs.len() {
            assert(qs[q] == i);
        } else {
            assert(age(head, all[255]) < age(head, all[q]));
        }
    }
}

/// An emitter without quads draws nothing: all its numbers are zero.
pub proof fn empty_ribbons_are_zero<T>(ribbons: Seq<Vec<T>>, zero: T, e: int, i: int)
    requires
        ribbons.len() == EMITTER_COUNT,
        0 <= e < EMITTER_COUNT,
        ribbons[e]@.len() == 0,
        0 <= i < RIBBON_FLOATS,
    ensures
        ribbon_blocks(ribbons, zero, EMITTER_COUNT as int)[e * 6656 + i] == zero,
        ribbon_blocks(ribbons, zero, EMITTER_COUNT as int).len() == 5 * 256 * 26,
{
    blocks_len(ribbons, zero, EMITTER_COUNT as int);
    block_at(ribbons, zero, EMITTER_COUNT as int, e, i);
}

/// The generator is linear: states that differ by a bit pattern go to states
/// that differ by what that pattern goes to. Low bits spread upwards by five,
/// thirteen and eighteen places, high bits downwards by seventeen.
pub proof fn jitter_spreads_bits(a: u32, b: u32, low: u32, high: u32)
    requires
        low < 16,
        high >= 0x0800_0000,
        high % 0x0800_0000 == 0,
    ensures
        xorshift(a ^ b) == xorshift(a) ^ xorshift(b),
        xorshift(low) == low ^ (low << 5) ^ (low << 13) ^ (low << 18),
        xorshift(high) == high ^ (high >> 17) ^ (high >> 12),
{
    assert(({
        let s = a ^ b;
        let p = s ^ (s << 13);
        let q = p ^ (p >> 17);
        q ^ (q << 5)
    }) == ({
        let p = a ^ (a << 13);
        let q = p ^ (p >> 17);
        q ^ (q << 5)
    }) ^ ({
        let p = b ^ (b << 13);
        let q = p ^ (p >> 17);
        q ^ (q << 5)
    })) by (bit_vector);
    assert(({
        let p = low ^ (low << 13);
        let q = p ^ (p >> 17);
        q ^ (q << 5)
    }) == low ^ (low << 5) ^ (low << 13) ^ (low << 18)) by (bit_vector)
        requires
            low < 16,
    ;
    assert(({
        let p = high ^ (high << 13);
        let q = p ^ (p >> 17);
        q ^ (q << 5)
    }) == high ^ (high >> 17) ^ (high >> 12)) by (bit_vector)
        requires
            high % 0x0800_0000 == 0,
    ;
}

} // verus!
