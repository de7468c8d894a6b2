//! Bookkeeping of the submit loop: which semaphore acquires the next image,
//! which fence guards it, and under which id each image was last presented.
use crate::frame_budget;
use crate::frame_budget::timestamp_delta;
use vstd::prelude::*;

verus! {

/// Queries reserved for the timestamps of one frame.
pub const GPU_STAMPS_PER_FRAME: u32 = 11;

/// Frames that may be on their way to the display. Waiting for the frame just
/// submitted would serialize every frame against its own scanout; two frames
/// of slack keep rendering overlapped with scanout and lock the cadence to the
/// refresh.
pub const DISPLAY_SLACK: u64 = 2;

/// Result of a frame draw call.
#[derive(Clone, Copy, Debug, PartialEq, Eq, Structural)]
pub enum DrawResult {
    /// Number of recorded passes submitted with a successful present request.
    Presented(u32),
    /// No image could be acquired in time.
    Skipped,
    /// The swapchain is suboptimal or out of date and must be recreated.
    Rebuild,
}

/// What acquiring an image came to.
#[derive(Clone, Copy, Debug, PartialEq, Eq, Structural)]
pub enum Acquire {
    /// An image of the swapchain.
    Image(usize),
    /// Timed out, or not ready.
    NotReady,
    OutOfDate,
}

/// What presenting an image came to.
#[derive(Clone, Copy, Debug, PartialEq, Eq, Structural)]
pub enum Present {
    Optimal,
    Suboptimal,
    OutOfDate,
}

/// An image on its way through the submit loop.
#[derive(Clone, Copy, Debug, PartialEq, Eq, Structural)]
pub struct Acquired {
    pub image: usize,
    /// Semaphore that the acquire signals.
    pub slot: usize,
}

/// How to wait for the display.
#[derive(Clone, Copy, Debug, PartialEq, Eq, Structural)]
pub enum DisplayWait {
    /// The device cannot wait for scanout.
    Unsupported,
    /// Too few frames are under way to wait for one.
    NotYet,
    /// Wait until this present has been displayed.
    For(u64),
}

/// State of the submit loop.
pub struct Swap {
    /// Passes recorded per present.
    pub burst: u32,
    /// Semaphore of the next acquire.
    pub acquire_index: usize,
    /// For each semaphore, the image whose submit last waited on it, until
    /// that submit is known to be complete.
    pub acquire_fences: Vec<Option<usize>>,
    /// For each image, whether work was ever submitted for it.
    pub submitted: Vec<bool>,
    /// For each image, the id under which it was last presented.
    pub submitted_ids: Vec<u64>,
    pub present_id: u64,
    pub last_presented: u32,
}

/// What the submit loop knows.
#[verifier::ext_equal]
pub struct SwapState {
    pub burst: u32,
    pub acquire_index: int,
    pub acquire_fences: Seq<Option<usize>>,
    pub submitted: Seq<bool>,
    pub submitted_ids: Seq<u64>,
    pub present_id: u64,
    pub last_presented: u32,
}

impl View for Swap {
    type V = SwapState;

    open spec fn view(&self) -> SwapState {
        SwapState {
            burst: self.burst,
            acquire_index: self.acquire_index as int,
            acquire_fences: self.acquire_fences@,
            submitted: self.submitted@,
            submitted_ids: self.submitted_ids@,
            present_id: self.present_id,
            last_presented: self.last_presented,
        }
    }
}

impl SwapState {
    /// One semaphore, one fence and one id per image. A fence that guards a
    /// semaphore belongs to an image with work submitted, and guards no other
    /// semaphore. No image has an id that was not given out, and no two
    /// images with work submitted have the same.
    pub open spec fn wf(self) -> bool {
        let n = self.submitted.len();
        &&& 0 < n <= u32::MAX
        &&& self.burst > 0
        &&& self.acquire_fences.len() == n
        &&& self.submitted_ids.len() == n
        &&& 0 <= self.acquire_index < n
        &&& self.last_presented < n
        &&& forall|k: int|
            0 <= k < n ==> (#[trigger] self.acquire_fences[k] matches Some(i) ==> i < n
                && self.submitted[i as int])
        &&& forall|k: int, l: int|
            0 <= k < l < n && #[trigger] self.acquire_fences[k] is Some
                && #[trigger] self.acquire_fences[l] is Some ==> self.acquire_fences[k]
                != self.acquire_fences[l]
        &&& forall|i: int| 0 <= i < n ==> #[trigger] self.submitted_ids[i] <= self.present_id
        &&& forall|i: int, j: int|
            0 <= i < j < n && self.submitted[i] && self.submitted[j]
                ==> #[trigger] self.submitted_ids[i] != #[trigger] self.submitted_ids[j]
    }

    /// A swapchain of `n` images that has presented nothing.
    pub open spec fn fresh(n: nat, burst: u32, present_id: u64, last_presented: u32) -> SwapState {
        SwapState {
            burst,
            acquire_index: 0,
            acquire_fences: Seq::new(n, |i: int| None),
            submitted: Seq::new(n, |i: int| false),
            submitted_ids: Seq::new(n, |i: int| 0),
            present_id,
            last_presented,
        }
    }

    /// The state once an image is acquired and its earlier work complete.
    pub open spec fn after_acquire(self, image: int) -> SwapState {
        SwapState {
            acquire_index: (self.acquire_index + 1) % (self.submitted.len() as int),
            acquire_fences: self.acquire_fences.map_values(
                |f: Option<usize>|
                    if f == Some(image as usize) {
                        None
                    } else {
                        f
                    },
            ),
            ..self
        }
    }

    /// The state once work for an image is submitted.
    pub open spec fn after_submit(self, a: Acquired) -> SwapState {
        SwapState {
            acquire_fences: self.acquire_fences.update(a.slot as int, Some(a.image)),
            submitted: self.submitted.update(a.image as int, true),
            submitted_ids: self.submitted_ids.update(
                a.image as int,
                (self.present_id + 1) as u64,
            ),
            present_id: (self.present_id + 1) as u64,
            ..self
        }
    }
}

impl Swap {
    /// State of a new swapchain. Present ids go on from those of an earlier one.
    pub fn new(images: usize, burst: u32, present_id: u64) -> (r: Swap)
        requires
            0 < images <= u32::MAX,
            burst > 0,
        ensures
            r@ == SwapState::fresh(images as nat, burst, present_id, 0),
            r@.wf(),
    {
        let mut acquire_fences: Vec<Option<usize>> = Vec::new();
        let mut submitted: Vec<bool> = Vec::new();
        let mut submitted_ids: Vec<u64> = Vec::new();
        let mut i: usize = 0;
        while i < images
            invariant
                i <= images,
                acquire_fences.len() == i,
                submitted.len() == i,
                submitted_ids.len() == i,
                forall|k: int| 0 <= k < i ==> #[trigger] acquire_fences[k] is None,
                forall|k: int| 0 <= k < i ==> !#[trigger] submitted[k],
                forall|k: int| 0 <= k < i ==> #[trigger] submitted_ids[k] == 0,
            decreases images - i,
        {
            acquire_fences.push(None);
            submitted.push(false);
            submitted_ids.push(0);
            i += 1;
        }
        let r = Swap {
            burst,
            acquire_index: 0,
            acquire_fences,
            submitted,
            submitted_ids,
            present_id,
            last_presented: 0,
        };
        assert(r@ =~= SwapState::fresh(images as nat, burst, present_id, 0));
        r
    }

    /// Image whose fence has to be waited for before the next acquire: reuse
    /// of a binary semaphore follows completion of the submit that consumed
    /// it, not the image that the next acquire returns.
    pub fn acquire_guard(&self) -> (r: Option<usize>)
        requires
            self@.wf(),
        ensures
            r == self@.acquire_fences[self@.acquire_index],
    {
        self.acquire_fences[self.acquire_index]
    }

    /// What an acquire leads to. An image goes on through the loop once its
    /// fence has been waited for: completed uses of that fence are forgotten
    /// before it is reset for different work.
    pub fn acquired(&mut self, outcome: Acquire) -> (r: Result<Acquired, DrawResult>)
        requires
            old(self)@.wf(),
            outcome matches Acquire::Image(image) ==> image < old(self)@.submitted.len(),
        ensures
            final(self)@.wf(),
            match outcome {
                Acquire::Image(image) => {
                    &&& r == Ok::<Acquired, DrawResult>(
                        Acquired { image, slot: old(self)@.acquire_index as usize },
                    )
                    &&& final(self)@ == old(self)@.after_acquire(image as int)
                    &&& forall|k: int|
                        0 <= k < final(self)@.acquire_fences.len()
                            ==> #[trigger] final(self)@.acquire_fences[k] != Some(image)
                },
                Acquire::NotReady => r == Err::<Acquired, DrawResult>(DrawResult::Skipped)
                    && final(self)@ == old(self)@,
                Acquire::OutOfDate => r == Err::<Acquired, DrawResult>(DrawResult::Rebuild)
                    && final(self)@ == old(self)@,
            },
    {
        match outcome {
            Acquire::Image(image) => {
                let slot: usize = self.acquire_index;
                let n: usize = self.acquire_fences.len();
                let ghost before = self@;
                self.acquire_index = if slot + 1 == n {
                    0
                } else {
                    slot + 1
                };
                let mut k: usize = 0;
                while k < n
                    invariant
                        n == self.acquire_fences.len(),
                        n == before.acquire_fences.len(),
                        k <= n,
                        forall|l: int|
                            0 <= l < k ==> #[trigger] self.acquire_fences@[l]
                                == before.after_acquire(image as int).acquire_fences[l],
                        forall|l: int|
                            k <= l < n ==> #[trigger] self.acquire_fences@[l]
                                == before.acquire_fences[l],
                        self@ == (SwapState {
                            acquire_fences: self.acquire_fences@,
                            acquire_index: self.acquire_index as int,
                            ..before
                        }),
                        self.acquire_index == (if slot + 1 == n { 0 } else { slot + 1 }),
                    decreases n - k,
                {
                    match self.acquire_fences[k] {
                        Some(i) => if i == image {
                            self.acquire_fences.set(k, None);
                        },
                        None => {},
                    }
                    k += 1;
                }
                proof {
                    let m = n as int;
                    assert((slot + 1) % m == (if slot + 1 == m { 0 } else { slot + 1 })) by {
                        if slot + 1 == m {
                            vstd::arithmetic::div_mod::lemma_mod_self_0(m);
                        } else {
                            vstd::arithmetic::div_mod::lemma_small_mod(
                                (slot + 1) as nat,
                                m as nat,
                            );
                        }
                    }
                    assert(self@ =~= before.after_acquire(image as int));
                }
                Ok(Acquired { image, slot })
            },
            Acquire::NotReady => Err(DrawResult::Skipped),
            Acquire::OutOfDate => Err(DrawResult::Rebuild),
        }
    }

    /// Whether the timestamps of an image's last frame are read back.
    pub fn reads_back(&self, image: usize, every: u64) -> (r: bool)
        requires
            self@.wf(),
            image < self@.submitted.len(),
        ensures
            r == (self@.submitted[image as int] && every != 0 && self@.present_id % every == 0),
    {
        self.submitted[image] && every != 0 && self.present_id % every == 0
    }

    /// Work for an image has been submitted: its fence now guards the
    /// semaphore that acquired it. Gives the id to present it under.
    pub fn submit(&mut self, a: Acquired) -> (id: u64)
        requires
            old(self)@.wf(),
            a.image < old(self)@.submitted.len(),
            a.slot < old(self)@.submitted.len(),
            forall|k: int|
                0 <= k < old(self)@.acquire_fences.len()
                    ==> #[trigger] old(self)@.acquire_fences[k] != Some(a.image),
            old(self)@.present_id < u64::MAX,
        ensures
            final(self)@.wf(),
            final(self)@ == old(self)@.after_submit(a),
            id == old(self)@.present_id + 1,
    {
        let ghost before = self@;
        self.submitted.set(a.image, true);
        self.acquire_fences.set(a.slot, Some(a.image));
        self.present_id = self.present_id + 1;
        let id: u64 = self.present_id;
        self.submitted_ids.set(a.image, id);
        assert(self@ =~= before.after_submit(a));
        id
    }

    /// A present returned. A suboptimal one is not shown again.
    pub fn presented(&mut self, image: usize, outcome: Present) -> (r: DrawResult)
        requires
            old(self)@.wf(),
            image < old(self)@.submitted.len(),
        ensures
            final(self)@.wf(),
            match outcome {
                Present::Optimal => {
                    &&& r == DrawResult::Presented(old(self)@.burst)
                    &&& final(self)@ == (SwapState { last_presented: image as u32, ..old(self)@ })
                },
                _ => r == DrawResult::Rebuild && final(self)@ == old(self)@,
            },
    {
        match outcome {
            Present::Optimal => {
                self.last_presented = image as u32;
                DrawResult::Presented(self.burst)
            },
            Present::Suboptimal => DrawResult::Rebuild,
            Present::OutOfDate => DrawResult::Rebuild,
        }
    }

    /// How to pace the loop on scanout.
    pub fn display_wait(&self, supported: bool) -> (r: DisplayWait)
        ensures
            r == (if !supported {
                DisplayWait::Unsupported
            } else if self@.present_id <= DISPLAY_SLACK {
                DisplayWait::NotYet
            } else {
                DisplayWait::For((self@.present_id - DISPLAY_SLACK) as u64)
            }),
    {
        if !supported {
            DisplayWait::Unsupported
        } else if self.present_id <= DISPLAY_SLACK {
            DisplayWait::NotYet
        } else {
            DisplayWait::For(self.present_id - DISPLAY_SLACK)
        }
    }

    /// Images whose last frame has not been read back, with their ids.
    pub open spec fn unread(submitted: Seq<bool>, ids: Seq<u64>, n: nat) -> Seq<(usize, u64)>
        decreases n,
    {
        if n == 0 {
            Seq::empty()
        } else {
            let before = Swap::unread(submitted, ids, (n - 1) as nat);
            if submitted[n - 1] {
                before.push(((n - 1) as usize, ids[n - 1]))
            } else {
                before
            }
        }
    }

    /// The images to read back when a benchmark ends: each image with work
    /// submitted, in order, with the id of its last present.
    pub fn drain(&self) -> (r: Vec<(usize, u64)>)
        requires
            self@.wf(),
        ensures
            r@ == Swap::unread(self@.submitted, self@.submitted_ids, self@.submitted.len()),
    {
        let mut out: Vec<(usize, u64)> = Vec::new();
        let mut i: usize = 0;
        while i < self.submitted.len()
            invariant
                i <= self.submitted.len(),
                self.submitted_ids.len() == self.submitted.len(),
                out@ == Swap::unread(self.submitted@, self.submitted_ids@, i as nat),
            decreases self.submitted.len() - i,
        {
            if self.submitted[i] {
                out.push((i, self.submitted_ids[i]));
            }
            i += 1;
        }
        out
    }

    /// Slot of one pass of an image: each image owns as many as are recorded
    /// per present.
    pub fn slot(&self, image: usize, render: u32) -> (r: usize)
        requires
            image < self@.submitted.len(),
            render < self@.burst,
            self@.submitted.len() * self@.burst <= usize::MAX,
        ensures
            r == image * self@.burst + render,
            r < self@.submitted.len() * self@.burst,
            r / self@.burst as usize == image,
    {
        proof {
            let b = self.burst as int;
            let n = self.submitted.len() as int;
            assert(image * b + render < n * b) by (nonlinear_arith)
                requires
                    image < n,
                    render < b,
            ;
            assert(0 <= image * b) by (nonlinear_arith)
                requires
                    b >= 0,
                    image >= 0,
            ;
            vstd::arithmetic::div_mod::lemma_fundamental_div_mod_converse(
                image * b + render,
                b,
                image as int,
                render as int,
            );
        }
        image * self.burst as usize + render as usize
    }
}

/// A semaphore is never waited on twice at once: after an acquire and the
/// submit that consumes it, the next acquire uses another semaphore (where
/// there is one), and finds the fence that guards it.
pub proof fn semaphores_take_turns(s: SwapState, image: usize)
    requires
        s.wf(),
        image < s.submitted.len(),
        s.present_id < u64::MAX,
    ensures
        ({
            let a = Acquired { image, slot: s.acquire_index as usize };
            let t = s.after_acquire(image as int).after_submit(a);
            &&& s.submitted.len() > 1 ==> t.acquire_index != s.acquire_index
            &&& t.acquire_fences[s.acquire_index] == Some(image)
            &&& forall|k: int|
                0 <= k < t.acquire_fences.len() && k != s.acquire_index
                    ==> #[trigger] t.acquire_fences[k] != Some(image)
        }),
{
    let n = s.submitted.len() as int;
    let next = s.acquire_index + 1;
    if next == n {
        vstd::arithmetic::div_mod::lemma_mod_self_0(n);
    } else {
        vstd::arithmetic::div_mod::lemma_small_mod(next as nat, n as nat);
    }
}

/// Present ids grow by one from submit to submit, so that an id names one
/// present.
pub proof fn present_ids_are_new(s: SwapState, a: Acquired)
    requires
        s.wf(),
        a.image < s.submitted.len(),
        s.present_id < u64::MAX,
    ensures
        s.after_submit(a).present_id == s.present_id + 1,
        forall|i: int|
            0 <= i < s.submitted_ids.len() ==> #[trigger] s.submitted_ids[i] < s.after_submit(
                a,
            ).submitted_ids[a.image as int],
{
}

// ---------------------------------------------------------------------------
// GPU timestamps
// ---------------------------------------------------------------------------

/// Range of a counter with this many valid bits.
pub open spec fn counter_range(valid_bits: u32) -> int {
    vstd::arithmetic::power2::pow2(
        if valid_bits >= 64 {
            64
        } else {
            valid_bits as nat
        },
    ) as int
}

/// Ticks of each pass: from one timestamp to the next.
pub open spec fn passes(stamps: Seq<u64>, valid_bits: u32) -> Seq<u64> {
    Seq::new(
        (stamps.len() - 1) as nat,
        |i: int| ((stamps[i + 1] - stamps[i]) % counter_range(valid_bits)) as u64,
    )
}

/// First query of an image in the pool of timestamps.
pub fn query_base(image: u32) -> (r: u32)
    requires
        image * GPU_STAMPS_PER_FRAME <= u32::MAX,
    ensures
        r == image * GPU_STAMPS_PER_FRAME,
{
    image * GPU_STAMPS_PER_FRAME
}

/// Ticks of each pass of a frame, and of the whole frame.
pub fn pass_ticks(stamps: &Vec<u64>, valid_bits: u32) -> (r: (Vec<u64>, u64))
    requires
        stamps.len() > 0,
    ensures
        r.0@ == passes(stamps@, valid_bits),
        r.1 == (stamps@.last() - stamps[0]) % counter_range(valid_bits),
{
    let mut out: Vec<u64> = Vec::new();
    let mut i: usize = 1;
    while i < stamps.len()
        invariant
            1 <= i <= stamps.len(),
            out@ == passes(stamps@, valid_bits).take(i - 1),
        decreases stamps.len() - i,
    {
        let d: u64 = timestamp_delta(stamps[i - 1], stamps[i], valid_bits);
        out.push(d);
        assert(out@ =~= passes(stamps@, valid_bits).take(i as int));
        i += 1;
    }
    assert(out@ =~= passes(stamps@, valid_bits));
    (out, timestamp_delta(stamps[0], stamps[stamps.len() - 1], valid_bits))
}

/// The passes account for the whole frame: their ticks add up to its ticks,
/// modulo the range of the counter.
pub proof fn passes_add_up(stamps: Seq<u64>, valid_bits: u32)
    requires
        stamps.len() > 0,
    ensures
        frame_budget::total(passes(stamps, valid_bits)) as int % counter_range(valid_bits) == (
        stamps.last() - stamps[0]) % counter_range(valid_bits),
    decreases stamps.len(),
{
    let m = counter_range(valid_bits);
    let bits = if valid_bits >= 64 { 64 } else { valid_bits as nat };
    vstd::arithmetic::power2::lemma_pow2_pos(bits);
    vstd::arithmetic::power2::lemma2_to64();
    vstd::arithmetic::power2::lemma2_to64_rest();
    let ps = passes(stamps, valid_bits);
    if stamps.len() == 1 {
        assert(ps =~= Seq::empty());
        assert(frame_budget::total(ps) == 0);
    } else {
        let shorter = stamps.drop_last();
        passes_add_up(shorter, valid_bits);
        assert(ps.drop_last() =~= passes(shorter, valid_bits));
        let t = frame_budget::total(passes(shorter, valid_bits)) as int;
        let d = (stamps.last() - shorter.last()) as int;
        if bits < 64 {
            vstd::arithmetic::power2::lemma_pow2_strictly_increases(bits, 64);
        }
        assert(0 <= d % m < m);
        assert(ps.last() == (d % m) as u64);
        assert(ps.last() as int == d % m);
        assert(frame_budget::total(ps) == t + d % m);
        vstd::arithmetic::div_mod::lemma_add_mod_noop_right(t, d, m);
        vstd::arithmetic::div_mod::lemma_add_mod_noop(t, d, m);
        vstd::arithmetic::div_mod::lemma_add_mod_noop(
            (shorter.last() - stamps[0]) as int,
            d,
            m,
        );
    }
}

/// A counter that is advanced by the ticks of a pass goes from the timestamp
/// before it to the one after it, whether or not it wrapped in between, and the
/// ticks are never more than the counter can tell.
pub proof fn passes_lead_to_the_next_stamp(stamps: Seq<u64>, valid_bits: u32, i: int)
    requires
        0 <= i < stamps.len() - 1,
        0 < valid_bits,
    ensures
        ({
            let range = vstd::arithmetic::power2::pow2(
                if valid_bits < 64 {
                    valid_bits as nat
                } else {
                    64
                },
            ) as int;
            &&& (stamps[i] + passes(stamps, valid_bits)[i]) % range == stamps[i + 1] as int % range
            &&& passes(stamps, valid_bits)[i] < range
            &&& stamps[i] <= stamps[i + 1] < range ==> passes(stamps, valid_bits)[i] == stamps[i + 1]
                - stamps[i]
        }),
{
    let bits = if valid_bits >= 64 { 64 } else { valid_bits as nat };
    let m = counter_range(valid_bits);
    vstd::arithmetic::power2::lemma_pow2_pos(bits);
    vstd::arithmetic::power2::lemma2_to64();
    vstd::arithmetic::power2::lemma2_to64_rest();
    if bits < 64 {
        vstd::arithmetic::power2::lemma_pow2_strictly_increases(bits, 64);
    }
    let (a, b) = (stamps[i] as int, stamps[i + 1] as int);
    vstd::arithmetic::div_mod::lemma_mod_bound(b - a, m);
    vstd::arithmetic::div_mod::lemma_add_mod_noop_right(a, b - a, m);
    if a <= b < m {
        vstd::arithmetic::div_mod::lemma_small_mod((b - a) as nat, m as nat);
    }
}

/// What is read back at the end is what was submitted: each image with work
/// submitted once, with the id of its last present, in the order of the images.
pub proof fn drains_leave_out_nothing(submitted: Seq<bool>, ids: Seq<u64>, n: nat)
    requires
        n <= submitted.len() <= u32::MAX,
        ids.len() == submitted.len(),
    ensures
        forall|i: int|
            0 <= i < n && #[trigger] submitted[i] ==> Swap::unread(submitted, ids, n).contains(
                (i as usize, ids[i]),
            ),
        forall|q: int|
            0 <= q < Swap::unread(submitted, ids, n).len() ==> {
                let (i, id) = #[trigger] Swap::unread(submitted, ids, n)[q];
                i < n && submitted[i as int] && id == ids[i as int]
            },
        forall|p: int, q: int|
            0 <= p < q < Swap::unread(submitted, ids, n).len() ==> (#[trigger] Swap::unread(
                submitted,
                ids,
                n,
            )[p]).0 < (#[trigger] Swap::unread(submitted, ids, n)[q]).0,
    decreases n,
{
    if n > 0 {
        let m = (n - 1) as nat;
        drains_leave_out_nothing(submitted, ids, m);
        let before = Swap::unread(submitted, ids, m);
        let all = Swap::unread(submitted, ids, n);
        assert forall|i: int| 0 <= i < n && #[trigger] submitted[i] implies all.contains(
            (i as usize, ids[i]),
        ) by {
            if i < m {
                let q = choose|q: int| 0 <= q < before.len() && before[q] == (i as usize, ids[i]);
                assert(all[q] == before[q]);
            } else {
                assert(all[before.len() as int] == (i as usize, ids[i]));
            }
        }
    }
}

/// A new swapchain owes nothing: no image has work submitted, no semaphore is
/// guarded, and there is nothing to read back. Its first acquire uses the first
/// semaphore.
pub proof fn new_swapchains_owe_nothing(
    n: nat,
    burst: u32,
    present_id: u64,
    last_presented: u32,
    i: int,
)
    requires
        0 <= i < n <= u32::MAX,
    ensures
        ({
            let s = SwapState::fresh(n, burst, present_id, last_presented);
            &&& s.submitted.len() == n
            &&& !s.submitted[i]
            &&& s.acquire_fences[i] is None
            &&& s.present_id == present_id
            &&& s.acquire_index == 0
            &&& Swap::unread(s.submitted, s.submitted_ids, n).len() == 0
        }),
{
    let s = SwapState::fresh(n, burst, present_id, last_presented);
    drains_leave_out_nothing(s.submitted, s.submitted_ids, n);
    let all = Swap::unread(s.submitted, s.submitted_ids, n);
    if all.len() > 0 {
        assert(s.submitted[all[0].0 as int]);
    }
}

/// An acquire and the submit that follows leave the other images alone: what
/// was submitted for them and what guards their semaphores stays, and the image
/// itself is found under its new id.
pub proof fn other_images_are_left_alone(s: SwapState, image: usize, other: int)
    requires
        s.wf(),
        image < s.submitted.len(),
        s.present_id < u64::MAX,
        0 <= other < s.submitted.len(),
        other != image,
    ensures
        ({
            let a = Acquired { image, slot: s.acquire_index as usize };
            let t = s.after_acquire(image as int).after_submit(a);
            &&& t.submitted[other] == s.submitted[other]
            &&& t.submitted_ids[other] == s.submitted_ids[other]
            &&& t.submitted[image as int]
            &&& t.submitted_ids[image as int] == s.present_id + 1
            &&& forall|k: int|
                0 <= k < s.acquire_fences.len() && k != s.acquire_index && s.acquire_fences[k]
                    == Some(other as usize) ==> #[trigger] t.acquire_fences[k] == Some(
                    other as usize,
                )
            &&& t.last_presented == s.last_presented && t.burst == s.burst
        }),
{
}

} // verus!
