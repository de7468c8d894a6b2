//! Exact, opt-in frame budget measurements. Successful queue-present calls are
//! submission cadence, not proof that a compositor displayed every image.
//!
//! All times are whole nanoseconds, so that sums, means and percentiles are
//! exact. A present is stamped with the nanoseconds since some fixed moment.
use crate::text;
use crate::text::{push_decimal, push_tenths, push_thousandths, push_truth};
use vstd::prelude::*;
use vstd::string::*;

verus! {

/// Time of one frame at the target rate.
pub const TARGET_FRAME_NS: u64 = 1_000_000;

/// A thousand times the smallest number of 53 bits.
pub const QUOTIENT_SCALE: u64 = 4_503_599_627_370_496_000;

/// Presents that are not measured.
pub const WARMUP_PRESENTS: u64 = 500;

/// Time after start that is not measured.
pub const WARMUP_NS: u64 = 2_000_000_000;

// ---------------------------------------------------------------------------
// Distributions
// ---------------------------------------------------------------------------

/// What a set of durations looks like.
#[derive(Clone, Copy, Debug, PartialEq, Eq, Structural)]
pub struct Distribution {
    pub samples: usize,
    pub total_ns: u128,
    pub p50_ns: u64,
    pub p95_ns: u64,
    pub p99_ns: u64,
    pub max_ns: u64,
    pub over_budget: usize,
}

/// Sum of all samples.
pub open spec fn total(s: Seq<u64>) -> nat
    decreases s.len(),
{
    if s.len() == 0 {
        0
    } else {
        total(s.drop_last()) + s.last() as nat
    }
}

/// Samples above the frame budget.
pub open spec fn over_budget(s: Seq<u64>) -> nat
    decreases s.len(),
{
    if s.len() == 0 {
        0
    } else {
        over_budget(s.drop_last()) + if s.last() > TARGET_FRAME_NS {
            1nat
        } else {
            0
        }
    }
}

/// The order of durations.
pub open spec fn no_longer() -> spec_fn(u64, u64) -> bool {
    |a: u64, b: u64| a <= b
}

/// The samples from shortest to longest.
pub open spec fn ascending(s: Seq<u64>) -> Seq<u64> {
    s.sort_by(no_longer())
}

/// Place of the nearest-rank percentile among `n` samples in order: the first
/// at which `percent` of the samples have been seen.
pub open spec fn nearest_rank(n: nat, percent: nat) -> int {
    (n * percent + 99) / 100 - 1
}

/// The nearest-rank percentile.
pub open spec fn percentile(s: Seq<u64>, percent: nat) -> u64 {
    ascending(s)[nearest_rank(s.len(), percent)]
}

/// What samples look like.
pub open spec fn distribution(s: Seq<u64>) -> Distribution {
    Distribution {
        samples: s.len() as usize,
        total_ns: total(s) as u128,
        p50_ns: percentile(s, 50),
        p95_ns: percentile(s, 95),
        p99_ns: percentile(s, 99),
        max_ns: ascending(s).last(),
        over_budget: over_budget(s) as usize,
    }
}

/// Text of a distribution: durations in microseconds with three decimals.
pub open spec fn distribution_json(d: Distribution) -> Seq<char> {
    "{\"samples\":"@ + text::decimal(d.samples as nat) + ",\"mean_us\":"@ + text::thousandths(
        text::rounded(d.total_ns as nat, d.samples as nat),
    ) + ",\"p50_us\":"@ + text::thousandths(d.p50_ns as nat) + ",\"p95_us\":"@ + text::thousandths(
        d.p95_ns as nat,
    ) + ",\"p99_us\":"@ + text::thousandths(d.p99_ns as nat) + ",\"max_us\":"@ + text::thousandths(
        d.max_ns as nat,
    ) + ",\"over_1ms\":"@ + text::decimal(d.over_budget as nat) + "}"@
}

/// `<[u64]>::sort_unstable`: the elements come out in ascending order, and
/// none is lost or added.
#[verifier::external_body]
fn sort(samples: &mut [u64])
    ensures
        final(samples)@.to_multiset() == old(samples)@.to_multiset(),
        forall|i: int, j: int|
            0 <= i <= j < final(samples)@.len() ==> #[trigger] final(samples)@[i]
                <= #[trigger] final(samples)@[j],
{
    samples.sort_unstable();
}

proof fn ascending_facts(s: Seq<u64>)
    ensures
        ascending(s).len() == s.len(),
        ascending(s).to_multiset() == s.to_multiset(),
        forall|i: int, j: int|
            0 <= i <= j < s.len() ==> #[trigger] ascending(s)[i] <= #[trigger] ascending(s)[j],
{
    let leq = no_longer();
    s.lemma_sort_by_ensures(leq);
    let a = ascending(s);
    vstd::seq_lib::to_multiset_len(s);
    vstd::seq_lib::to_multiset_len(a);
    assert forall|i: int, j: int| 0 <= i <= j < a.len() implies #[trigger] a[i]
        <= #[trigger] a[j] by {
        if i < j {
            assert(leq(a[i], a[j]));
        }
    }
}

proof fn sorted_is_ascending(s: Seq<u64>, a: Seq<u64>)
    requires
        a.to_multiset() == s.to_multiset(),
        forall|i: int, j: int| 0 <= i <= j < a.len() ==> #[trigger] a[i] <= #[trigger] a[j],
    ensures
        a == ascending(s),
{
    let leq = no_longer();
    s.lemma_sort_by_ensures(leq);
    assert(vstd::relations::sorted_by(a, leq));
    vstd::seq_lib::lemma_sorted_unique(a, ascending(s), leq);
}

proof fn total_bound(s: Seq<u64>)
    ensures
        total(s) <= s.len() * u64::MAX,
        over_budget(s) <= s.len(),
    decreases s.len(),
{
    if s.len() > 0 {
        total_bound(s.drop_last());
        assert((s.len() - 1) * u64::MAX + u64::MAX == s.len() * u64::MAX) by (nonlinear_arith);
    }
}

/// The nearest rank is the first at which the share of samples seen reaches
/// `percent`.
pub proof fn nearest_rank_covers(n: nat, percent: nat)
    requires
        n > 0,
        0 < percent <= 100,
    ensures
        0 <= nearest_rank(n, percent) < n,
        100 * (nearest_rank(n, percent) + 1) >= n * percent,
        100 * nearest_rank(n, percent) < n * percent,
{
    assert(0 < n * percent <= 100 * n) by (nonlinear_arith)
        requires
            n > 0,
            0 < percent <= 100,
    ;
}

/// A higher percentile is no shorter, and none is above the longest sample.
pub proof fn percentiles_are_ordered(s: Seq<u64>, low: nat, high: nat)
    requires
        s.len() > 0,
        0 < low <= high <= 100,
    ensures
        percentile(s, low) <= percentile(s, high) <= ascending(s).last(),
{
    ascending_facts(s);
    nearest_rank_covers(s.len(), low);
    nearest_rank_covers(s.len(), high);
    assert(s.len() * low <= s.len() * high) by (nonlinear_arith)
        requires
            low <= high,
    ;
}

/// At least `percent` of the samples are no longer than the percentile: those
/// up to its rank.
pub proof fn percentile_bounds_its_share(s: Seq<u64>, percent: nat)
    requires
        s.len() > 0,
        0 < percent <= 100,
    ensures
        ascending(s).to_multiset() == s.to_multiset(),
        forall|i: int|
            0 <= i <= nearest_rank(s.len(), percent) ==> #[trigger] ascending(s)[i] <= percentile(
                s,
                percent,
            ),
        100 * (nearest_rank(s.len(), percent) + 1) >= s.len() * percent,
{
    ascending_facts(s);
    nearest_rank_covers(s.len(), percent);
}

/// `a / b` to the nearest integer, halves up.
fn round_div(a: u128, b: u128) -> (r: u128)
    requires
        b > 0,
    ensures
        r == text::rounded(a as nat, b as nat),
{
    let q: u128 = a / b;
    let rest: u128 = a % b;
    let up: bool = rest >= b - rest;
    proof {
        let x = a as int;
        let d = b as int;
        let up_q = if up { q + 1 } else { q as int };
        let left = 2 * x + d - up_q * (2 * d);
        assert(x == d * q + rest) by {
            vstd::arithmetic::div_mod::lemma_fundamental_div_mod(x, d);
        }
        assert(left == if up { 2 * rest - d } else { 2 * rest + d }) by (nonlinear_arith)
            requires
                x == d * q + rest,
                up_q == (if up { q + 1 } else { q as int }),
                left == 2 * x + d - up_q * (2 * d),
        ;
        vstd::arithmetic::div_mod::lemma_fundamental_div_mod_converse(
            2 * x + d,
            2 * d,
            up_q,
            left,
        );
        if up {
            assert(q < x) by (nonlinear_arith)
                requires
                    x == d * q + rest,
                    d >= 1,
                    rest >= 1,
                    q >= 0,
            ;
        }
    }
    if up {
        q + 1
    } else {
        q
    }
}

impl Distribution {
    /// Nearest-rank percentiles; retain nanosecond precision and exact tails.
    /// The samples are left in ascending order. `None` where there are none.
    pub fn from_ns(samples: &mut [u64]) -> (r: Option<Distribution>)
        ensures
            final(samples)@ == ascending(old(samples)@),
            match r {
                Some(d) => {
                    &&& d == distribution(old(samples)@)
                    &&& d.samples == old(samples)@.len()
                    &&& d.samples > 0
                },
                None => old(samples)@.len() == 0,
            },
    {
        let ghost s = samples@;
        let n: usize = samples.len();
        proof {
            ascending_facts(s);
        }
        if n == 0 {
            assert(ascending(s) =~= s);
            return None;
        }
        let mut sum: u128 = 0;
        let mut over: usize = 0;
        let mut i: usize = 0;
        while i < n
            invariant
                s == samples@,
                n == s.len(),
                i <= n,
                sum == total(s.take(i as int)),
                over == over_budget(s.take(i as int)),
            decreases n - i,
        {
            proof {
                assert(s.take(i + 1).drop_last() =~= s.take(i as int));
                total_bound(s.take(i as int));
                assert(i * u64::MAX + u64::MAX <= u128::MAX) by (nonlinear_arith)
                    requires
                        i <= u64::MAX,
                ;
            }
            sum = sum + samples[i] as u128;
            if samples[i] > TARGET_FRAME_NS {
                over = over + 1;
            }
            i += 1;
        }
        assert(s.take(n as int) =~= s);
        sort(samples);
        proof {
            sorted_is_ascending(s, samples@);
            nearest_rank_covers(n as nat, 50);
            nearest_rank_covers(n as nat, 95);
            nearest_rank_covers(n as nat, 99);
        }
        let r50: usize = ((n as u128 * 50 + 99) / 100 - 1) as usize;
        let r95: usize = ((n as u128 * 95 + 99) / 100 - 1) as usize;
        let r99: usize = ((n as u128 * 99 + 99) / 100 - 1) as usize;
        Some(
            Distribution {
                samples: n,
                total_ns: sum,
                p50_ns: samples[r50],
                p95_ns: samples[r95],
                p99_ns: samples[r99],
                max_ns: samples[n - 1],
                over_budget: over,
            },
        )
    }

    /// One JSON object, with durations in microseconds.
    pub fn json(&self) -> (r: String)
        requires
            self.samples > 0,
        ensures
            r@ == distribution_json(*self),
    {
        let mut out: String = "{\"samples\":".to_owned();
        push_decimal(&mut out, self.samples as u128);
        out.append(",\"mean_us\":");
        push_thousandths(&mut out, round_div(self.total_ns, self.samples as u128));
        out.append(",\"p50_us\":");
        push_thousandths(&mut out, self.p50_ns as u128);
        out.append(",\"p95_us\":");
        push_thousandths(&mut out, self.p95_ns as u128);
        out.append(",\"p99_us\":");
        push_thousandths(&mut out, self.p99_ns as u128);
        out.append(",\"max_us\":");
        push_thousandths(&mut out, self.max_ns as u128);
        out.append(",\"over_1ms\":");
        push_decimal(&mut out, self.over_budget as u128);
        out.append("}");
        out
    }
}

/// Timestamp counters may expose fewer than 64 bits and wrap between queries:
/// the difference is taken modulo the counter's range.
pub fn timestamp_delta(start: u64, end: u64, valid_bits: u32) -> (r: u64)
    ensures
        r == (end - start) % (vstd::arithmetic::power2::pow2(
            if valid_bits >= 64 {
                64
            } else {
                valid_bits as nat
            },
        ) as int),
{
    let d: u64 = end.wrapping_sub(start);
    proof {
        vstd::arithmetic::power2::lemma2_to64();
        vstd::arithmetic::power2::lemma2_to64_rest();
        let full = 0x1_0000_0000_0000_0000int;
        let x = end - start;
        assert(d == x % full) by {
            vstd::arithmetic::div_mod::lemma_fundamental_div_mod_converse(
                x,
                full,
                if x < 0 { -1int } else { 0 },
                d as int,
            );
        }
        if 0 < valid_bits < 64 {
            let n = valid_bits as nat;
            let m = vstd::arithmetic::power2::pow2(n) as int;
            vstd::arithmetic::power2::lemma_pow2_pos(n);
            vstd::arithmetic::power2::lemma_pow2_strictly_increases(n, 64);
            vstd::bits::lemma_u64_low_bits_mask_is_mod(d, n);
            vstd::bits::lemma_u64_pow2_no_overflow(n);
            vstd::bits::lemma_u64_shl_is_mul(1, valid_bits as u64);
            assert(vstd::bits::low_bits_mask(n) == m - 1);
            // The full range is a multiple of the counter's range.
            let k = vstd::arithmetic::power2::pow2((64 - n) as nat) as int;
            vstd::arithmetic::power2::lemma_pow2_adds(n, (64 - n) as nat);
            let q = if x < 0 { -1int } else { 0 };
            assert(x == m * (k * q) + d) by (nonlinear_arith)
                requires
                    x == full * q + d,
                    full == m * k,
            ;
            vstd::arithmetic::div_mod::lemma_mod_multiples_vanish(k * q, d as int, m);
        }
    }
    if valid_bits == 0 {
        0
    } else if valid_bits < 64 {
        d & ((1u64 << valid_bits) - 1)
    } else {
        d
    }
}

// ---------------------------------------------------------------------------
// Capture
// ---------------------------------------------------------------------------

/// A benchmark in progress.
pub struct Capture {
    pub target: u64,
    pub warmup: u64,
    pub last_present_ns: Option<u64>,
    pub submission_intervals_ns: Vec<u64>,
    pub gpu_ns: Vec<u64>,
    pub display_times_ns: Vec<u64>,
    pub first_present_id: u64,
    pub last_present_id: u64,
}

/// Where a benchmark stands after a present.
#[derive(Clone, Copy, Debug, PartialEq, Eq, Structural)]
pub enum Progress {
    Warmup,
    Started,
    Measuring,
    Complete,
}

/// What a capture holds.
pub struct CaptureState {
    pub target: u64,
    pub warmup: u64,
    pub last_present_ns: Option<u64>,
    pub submission_intervals_ns: Seq<u64>,
    pub gpu_ns: Seq<u64>,
    pub display_times_ns: Seq<u64>,
    pub first_present_id: u64,
    pub last_present_id: u64,
}

impl View for Capture {
    type V = CaptureState;

    open spec fn view(&self) -> CaptureState {
        CaptureState {
            target: self.target,
            warmup: self.warmup,
            last_present_ns: self.last_present_ns,
            submission_intervals_ns: self.submission_intervals_ns@,
            gpu_ns: self.gpu_ns@,
            display_times_ns: self.display_times_ns@,
            first_present_id: self.first_present_id,
            last_present_id: self.last_present_id,
        }
    }
}

impl CaptureState {
    /// A capture with nothing measured.
    pub open spec fn fresh(target: u64) -> CaptureState {
        CaptureState {
            target,
            warmup: 0,
            last_present_ns: None,
            submission_intervals_ns: Seq::empty(),
            gpu_ns: Seq::empty(),
            display_times_ns: Seq::empty(),
            first_present_id: 0,
            last_present_id: 0,
        }
    }

    /// The last present is known exactly when the warmup is over.
    pub open spec fn wf(self) -> bool {
        &&& self.target > 0
        &&& self.warmup <= WARMUP_PRESENTS
        &&& (self.warmup == WARMUP_PRESENTS <==> self.last_present_ns is Some)
    }

    /// Time since the last present, zero where the clock ran backwards.
    pub open spec fn interval(self, now_ns: u64) -> u64 {
        match self.last_present_ns {
            Some(previous) => if now_ns >= previous {
                (now_ns - previous) as u64
            } else {
                0
            },
            None => 0,
        }
    }

    /// The capture after a successful present.
    pub open spec fn after_present(
        self,
        now_ns: u64,
        boot_elapsed_ns: u64,
        id: u64,
    ) -> CaptureState {
        if boot_elapsed_ns < WARMUP_NS {
            self
        } else if self.warmup + 1 < WARMUP_PRESENTS {
            CaptureState { warmup: (self.warmup + 1) as u64, ..self }
        } else if self.warmup + 1 == WARMUP_PRESENTS {
            CaptureState {
                warmup: WARMUP_PRESENTS,
                last_present_ns: Some(now_ns),
                first_present_id: (id + 1) as u64,
                ..self
            }
        } else {
            CaptureState {
                last_present_ns: Some(now_ns),
                submission_intervals_ns: self.submission_intervals_ns.push(self.interval(now_ns)),
                last_present_id: id,
                ..self
            }
        }
    }

    /// Where the benchmark stands after a successful present.
    pub open spec fn progress(self, boot_elapsed_ns: u64) -> Progress {
        if boot_elapsed_ns < WARMUP_NS || self.warmup + 1 < WARMUP_PRESENTS {
            Progress::Warmup
        } else if self.warmup + 1 == WARMUP_PRESENTS {
            Progress::Started
        } else if self.submission_intervals_ns.len() + 1 >= self.target {
            Progress::Complete
        } else {
            Progress::Measuring
        }
    }

    /// Whether work submitted under this id is part of the measured window.
    pub open spec fn measures(self, submitted_id: u64) -> bool {
        self.first_present_id != 0 && submitted_id >= self.first_present_id
    }
}

/// A sequence in order, each value once.
pub open spec fn distinct(s: Seq<u64>) -> Seq<u64>
    decreases s.len(),
{
    if s.len() <= 1 {
        s
    } else {
        let before = distinct(s.drop_last());
        if before.last() == s.last() {
            before
        } else {
            before.push(s.last())
        }
    }
}

/// Differences between neighbours.
pub open spec fn gaps(s: Seq<u64>) -> Seq<u64> {
    Seq::new(
        if s.len() > 0 {
            (s.len() - 1) as nat
        } else {
            0
        },
        |i: int| (s[i + 1] - s[i]) as u64,
    )
}

/// What a finished benchmark found.
#[derive(Clone, Copy, Debug, PartialEq, Eq, Structural)]
pub struct Measurement {
    pub submissions: Distribution,
    pub gpu: Option<Distribution>,
    pub display: Option<Distribution>,
    /// Images with distinct display times.
    pub displayed: usize,
}

/// What samples look like, where there are any.
pub open spec fn maybe_distribution(s: Seq<u64>) -> Option<Distribution> {
    if s.len() > 0 {
        Some(distribution(s))
    } else {
        None
    }
}

/// What a benchmark found.
pub open spec fn measurement(c: CaptureState) -> Measurement {
    let shown = distinct(ascending(c.display_times_ns));
    Measurement {
        submissions: distribution(c.submission_intervals_ns),
        gpu: maybe_distribution(c.gpu_ns),
        display: maybe_distribution(gaps(shown)),
        displayed: shown.len() as usize,
    }
}

/// A distribution meets the target: its mean is above zero and within the
/// frame budget, and so is its 99th percentile.
pub open spec fn meets_target(d: Distribution) -> bool {
    &&& 0 < d.total_ns <= d.samples * TARGET_FRAME_NS
    &&& d.p99_ns <= TARGET_FRAME_NS
}

impl Measurement {
    /// Presents per second, in thousandths.
    pub open spec fn rate(self) -> nat {
        if self.submissions.total_ns == 0 {
            0
        } else {
            text::rounded(
                (self.submissions.samples * 1_000_000_000_000) as nat,
                self.submissions.total_ns as nat,
            )
        }
    }

    /// Presents per second, in tenths.
    pub open spec fn rate_tenths(self) -> nat {
        if self.submissions.total_ns == 0 {
            0
        } else {
            text::rounded(
                (self.submissions.samples * 10_000_000_000) as nat,
                self.submissions.total_ns as nat,
            )
        }
    }

    /// Whether presents were submitted at the target rate.
    pub open spec fn submission_target(self) -> bool {
        meets_target(self.submissions)
    }

    /// Whether images were displayed at the target rate. Feedback is
    /// asynchronous and may cover only part of the capture: a partial sample
    /// is informative, but cannot certify the display target.
    pub open spec fn display_target(self) -> Option<bool> {
        if self.displayed != self.submissions.samples {
            None
        } else {
            match self.display {
                Some(d) => Some(meets_target(d)),
                None => None,
            }
        }
    }
}

/// Text of an optional truth value.
pub open spec fn maybe_bool_json(b: Option<bool>) -> Seq<char> {
    match b {
        Some(b) => text::truth(b),
        None => "null"@,
    }
}

/// Text of an optional distribution.
pub open spec fn maybe_json(d: Option<Distribution>) -> Seq<char> {
    match d {
        Some(d) => distribution_json(d),
        None => "null"@,
    }
}

/// The report of a benchmark: one line of JSON.
pub open spec fn report_json(m: Measurement, metadata: Seq<char>) -> Seq<char> {
    "{\"schema\":\"explora.frame-budget.v1\",\"target_fps\":1000,\"target_frame_us\":1000,\"criterion\":\"mean_and_p99\",\"present_submissions_per_second\":"@
        + text::thousandths(m.rate()) + ",\"submission_target_met\":"@ + text::truth(
        m.submission_target(),
    ) + ",\"display_target_met\":"@ + maybe_bool_json(m.display_target())
        + ",\"display_feedback_frames\":"@ + text::decimal(m.displayed as nat)
        + ",\"submission_interval\":"@ + distribution_json(m.submissions) + ",\"gpu_frame\":"@
        + maybe_json(m.gpu) + ",\"display_interval\":"@ + maybe_json(m.display)
        + ",\"config\":"@ + metadata + "}"@
}

/// Doubled until the quotient by a thousand has 53 bits.
pub open spec fn doubled(n: nat) -> nat
    decreases 2 * QUOTIENT_SCALE - n,
{
    if n == 0 || n >= QUOTIENT_SCALE {
        n
    } else {
        doubled(2 * n)
    }
}

/// A duration in tenths of a microsecond, rounded to the nearest. Halfway
/// cases go where the 53-bit quotient by a thousand lies, and to the even one
/// where that is exact.
pub open spec fn short_tenths(ns: u64) -> nat {
    let down = (ns / 100) as nat;
    let scaled = doubled(ns as nat);
    let up = if ns % 100 != 50 {
        ns % 100 > 50
    } else if scaled % 1000 == 0 {
        down % 2 == 1
    } else if scaled % 1000 == 500 {
        (scaled / 1000) % 2 == 1
    } else {
        scaled % 1000 > 500
    };
    if up {
        down + 1
    } else {
        down
    }
}

/// A duration in microseconds with one decimal.
pub open spec fn short_us(ns: u64) -> Seq<char> {
    text::tenths(short_tenths(ns))
}

/// The summary of a benchmark for a reader.
pub open spec fn summary_text(m: Measurement) -> Seq<char> {
    "benchmark: present submissions "@ + text::tenths(m.rate_tenths()) + "/s | 1ms budget p50 "@
        + short_us(m.submissions.p50_ns) + " p95 "@ + short_us(m.submissions.p95_ns) + " p99 "@
        + short_us(m.submissions.p99_ns) + " max "@ + short_us(m.submissions.max_ns)
        + " us | mean+p99 target "@ + (if m.submission_target() {
        "PASS"@
    } else {
        "FAIL"@
    }) + " | display feedback "@ + text::decimal(m.displayed as nat) + "/"@ + text::decimal(
        m.submissions.samples as nat,
    )
}

proof fn distinct_facts(s: Seq<u64>)
    requires
        forall|i: int, j: int| 0 <= i <= j < s.len() ==> #[trigger] s[i] <= #[trigger] s[j],
    ensures
        distinct(s).len() <= s.len(),
        s.len() > 0 ==> distinct(s).len() > 0 && distinct(s).last() == s.last(),
        forall|i: int, j: int|
            0 <= i < j < distinct(s).len() ==> #[trigger] distinct(s)[i] < #[trigger] distinct(s)[j],
    decreases s.len(),
{
    if s.len() > 1 {
        let t = s.drop_last();
        distinct_facts(t);
        let before = distinct(t);
        assert(t.last() == s[s.len() - 2]);
        assert(before.last() <= s.last());
        if before.last() != s.last() {
            let now = before.push(s.last());
            assert forall|i: int, j: int| 0 <= i < j < now.len() implies #[trigger] now[i]
                < #[trigger] now[j] by {
                if j == before.len() {
                    assert(before[i] <= before.last());
                }
            }
        }
    }
}

/// Display feedback counts images, so repeated display times count once.
pub proof fn feedback_counts_distinct_times(s: Seq<u64>)
    ensures
        distinct(ascending(s)).len() <= s.len(),
        forall|i: int, j: int|
            0 <= i < j < distinct(ascending(s)).len() ==> #[trigger] distinct(ascending(s))[i]
                < #[trigger] distinct(ascending(s))[j],
{
    ascending_facts(s);
    distinct_facts(ascending(s));
}

/// Partial feedback never certifies the display target.
pub proof fn partial_feedback_certifies_nothing(c: CaptureState)
    requires
        c.submission_intervals_ns.len() <= usize::MAX,
        c.display_times_ns.len() < c.submission_intervals_ns.len(),
    ensures
        measurement(c).display_target() is None,
{
    feedback_counts_distinct_times(c.display_times_ns);
}

/// Rare long stalls fail the budget on average even where the 99th
/// percentile passes.
pub proof fn stalls_fail_the_average(s: Seq<u64>)
    requires
        s.len() <= usize::MAX,
        total(s) > s.len() * TARGET_FRAME_NS,
    ensures
        !meets_target(distribution(s)),
{
    total_bound(s);
    assert(s.len() * u64::MAX <= u128::MAX) by (nonlinear_arith)
        requires
            s.len() <= u64::MAX,
    ;
}

/// Work from before the measured window never enters it: neither GPU nor
/// display samples are taken until the warmup is over, and then only of later
/// presents.
pub proof fn warmup_is_not_measured(c: CaptureState, now_ns: u64, boot_elapsed_ns: u64, id: u64)
    requires
        c.wf(),
        c.progress(boot_elapsed_ns) == Progress::Started,
        id < u64::MAX,
    ensures
        ({
            let started = c.after_present(now_ns, boot_elapsed_ns, id);
            &&& started.submission_intervals_ns == c.submission_intervals_ns
            &&& forall|old_id: u64| old_id <= id ==> !#[trigger] started.measures(old_id)
            &&& forall|new_id: u64| new_id > id ==> #[trigger] started.measures(new_id)
        }),
{
}

/// Every present after the warmup adds one interval, and nothing else does.
pub proof fn one_interval_per_measured_present(
    c: CaptureState,
    now_ns: u64,
    boot_elapsed_ns: u64,
    id: u64,
)
    requires
        c.wf(),
    ensures
        ({
            let p = c.progress(boot_elapsed_ns);
            let next = c.after_present(now_ns, boot_elapsed_ns, id);
            &&& next.wf()
            &&& next.submission_intervals_ns.len() == c.submission_intervals_ns.len() + if p
                == Progress::Measuring || p == Progress::Complete {
                1nat
            } else {
                0
            }
            &&& p == Progress::Complete ==> next.submission_intervals_ns.len() >= c.target
            &&& p == Progress::Measuring ==> next.submission_intervals_ns.len() < c.target
        }),
{
}

fn target_met(d: &Distribution) -> (r: bool)
    ensures
        r == meets_target(*d),
{
    proof {
        assert(0 <= d.samples * TARGET_FRAME_NS <= u64::MAX * TARGET_FRAME_NS) by (nonlinear_arith)
            requires
                d.samples <= u64::MAX,
        ;
    }
    0 < d.total_ns && d.total_ns <= d.samples as u128 * TARGET_FRAME_NS as u128 && d.p99_ns
        <= TARGET_FRAME_NS
}

fn push_distribution(out: &mut String, d: &Option<Distribution>)
    requires
        d matches Some(d) ==> d.samples > 0,
    ensures
        final(out)@ == old(out)@ + maybe_json(*d),
{
    match d {
        Some(d) => {
            let text: String = d.json();
            out.append(text.as_str());
        },
        None => {
            out.append("null");
        },
    }
}

fn double_up(ns: u64) -> (r: u64)
    requires
        ns > 0,
    ensures
        r == doubled(ns as nat),
{
    let mut n: u64 = ns;
    while n < QUOTIENT_SCALE
        invariant
            n > 0,
            doubled(n as nat) == doubled(ns as nat),
        decreases 2 * QUOTIENT_SCALE - n,
    {
        n = 2 * n;
    }
    n
}

fn push_short_us(out: &mut String, ns: u64)
    ensures
        final(out)@ == old(out)@ + short_us(ns),
{
    let down: u64 = ns / 100;
    let up: bool = if ns % 100 != 50 {
        ns % 100 > 50
    } else {
        let scaled: u64 = double_up(ns);
        if scaled % 1000 == 0 {
            down % 2 == 1
        } else if scaled % 1000 == 500 {
            (scaled / 1000) % 2 == 1
        } else {
            scaled % 1000 > 500
        }
    };
    let tenths: u64 = if up {
        down + 1
    } else {
        down
    };
    push_tenths(out, tenths as u128);
}

impl Measurement {
    /// Whether presents were submitted at the target rate.
    pub fn submission_target_met(&self) -> (r: bool)
        ensures
            r == self.submission_target(),
    {
        target_met(&self.submissions)
    }

    /// Whether images were displayed at the target rate, where feedback
    /// covers the capture.
    pub fn display_target_met(&self) -> (r: Option<bool>)
        ensures
            r == self.display_target(),
    {
        if self.displayed != self.submissions.samples {
            None
        } else {
            match &self.display {
                Some(d) => Some(target_met(d)),
                None => None,
            }
        }
    }

    fn rate_in(&self, scale: u128) -> (r: u128)
        requires
            0 < scale <= 1_000_000_000_000,
        ensures
            r == (if self.submissions.total_ns == 0 {
                0
            } else {
                text::rounded(
                    (self.submissions.samples * scale) as nat,
                    self.submissions.total_ns as nat,
                )
            }),
    {
        if self.submissions.total_ns == 0 {
            0
        } else {
            proof {
                assert(0 <= self.submissions.samples * scale <= u64::MAX * 1_000_000_000_000)
                    by (nonlinear_arith)
                    requires
                        self.submissions.samples <= u64::MAX,
                        0 < scale <= 1_000_000_000_000,
                ;
            }
            round_div(self.submissions.samples as u128 * scale, self.submissions.total_ns)
        }
    }


    /// One line for a reader.
    pub fn summary(&self) -> (r: String)
        ensures
            r@ == summary_text(*self),
    {
        let mut out: String = "benchmark: present submissions ".to_owned();
        push_tenths(&mut out, self.rate_in(10_000_000_000));
        out.append("/s | 1ms budget p50 ");
        push_short_us(&mut out, self.submissions.p50_ns);
        out.append(" p95 ");
        push_short_us(&mut out, self.submissions.p95_ns);
        out.append(" p99 ");
        push_short_us(&mut out, self.submissions.p99_ns);
        out.append(" max ");
        push_short_us(&mut out, self.submissions.max_ns);
        out.append(" us | mean+p99 target ");
        if self.submission_target_met() {
            out.append("PASS");
        } else {
            out.append("FAIL");
        }
        out.append(" | display feedback ");
        push_decimal(&mut out, self.displayed as u128);
        out.append("/");
        push_decimal(&mut out, self.submissions.samples as u128);
        out
    }

    /// One JSON line suitable for collection by a tool. `metadata` is the JSON
    /// value that describes the run.
    pub fn json(&self, metadata: &str) -> (r: String)
        requires
            self.submissions.samples > 0,
            self.gpu matches Some(d) ==> d.samples > 0,
            self.display matches Some(d) ==> d.samples > 0,
        ensures
            r@ == report_json(*self, metadata@),
    {
        let mut out: String =
            "{\"schema\":\"explora.frame-budget.v1\",\"target_fps\":1000,\"target_frame_us\":1000,\"criterion\":\"mean_and_p99\",\"present_submissions_per_second\":".to_owned();
        push_thousandths(&mut out, self.rate_in(1_000_000_000_000));
        out.append(",\"submission_target_met\":");
        push_truth(&mut out, self.submission_target_met());
        out.append(",\"display_target_met\":");
        match self.display_target_met() {
            Some(met) => {
                push_truth(&mut out, met);
            },
            None => {
                out.append("null");
            },
        }
        out.append(",\"display_feedback_frames\":");
        push_decimal(&mut out, self.displayed as u128);
        out.append(",\"submission_interval\":");
        let submissions: String = self.submissions.json();
        out.append(submissions.as_str());
        out.append(",\"gpu_frame\":");
        push_distribution(&mut out, &self.gpu);
        out.append(",\"display_interval\":");
        push_distribution(&mut out, &self.display);
        out.append(",\"config\":");
        out.append(metadata);
        out.append("}");
        out
    }
}

fn dedup(s: &Vec<u64>) -> (r: Vec<u64>)
    ensures
        r@ == distinct(s@),
{
    let mut out: Vec<u64> = Vec::new();
    let mut i: usize = 0;
    assert(s@.take(0) =~= Seq::empty());
    while i < s.len()
        invariant
            i <= s.len(),
            out@ == distinct(s@.take(i as int)),
            i > 0 ==> out.len() > 0,
        decreases s.len() - i,
    {
        assert(s@.take(i + 1).drop_last() =~= s@.take(i as int));
        if i == 0 {
            assert(s@.take(1) =~= out@.push(s[0]));
            out.push(s[i]);
        } else if out[out.len() - 1] != s[i] {
            out.push(s[i]);
        }
        i += 1;
    }
    assert(s@.take(i as int) =~= s@);
    out
}

fn neighbour_gaps(s: &Vec<u64>) -> (r: Vec<u64>)
    requires
        forall|i: int, j: int| 0 <= i < j < s.len() ==> #[trigger] s[i] < #[trigger] s[j],
    ensures
        r@ == gaps(s@),
{
    let mut out: Vec<u64> = Vec::new();
    let mut i: usize = 1;
    while i < s.len()
        invariant
            1 <= i,
            i <= s.len() || i == 1,
            out.len() == i - 1,
            forall|i: int, j: int| 0 <= i < j < s.len() ==> #[trigger] s[i] < #[trigger] s[j],
            forall|k: int| 0 <= k < out.len() ==> #[trigger] out[k] == gaps(s@)[k],
        decreases s.len() - i,
    {
        assert(s[i - 1] < s[i as int]);
        out.push(s[i] - s[i - 1]);
        i += 1;
    }
    assert(out@ =~= gaps(s@));
    out
}

impl Capture {
    /// Start a benchmark of `target` presents. Memory is reserved once at
    /// startup, never on the measured hot path.
    pub fn new(target: u64) -> (r: Capture)
        requires
            target > 0,
            8 * target <= isize::MAX,
        ensures
            r@ == CaptureState::fresh(target),
            r@.wf(),
    {
        let capacity: usize = target as usize;
        Capture {
            target,
            warmup: 0,
            last_present_ns: None,
            submission_intervals_ns: Vec::with_capacity(capacity),
            gpu_ns: Vec::with_capacity(capacity),
            display_times_ns: Vec::with_capacity(capacity),
            first_present_id: 0,
            last_present_id: 0,
        }
    }

    /// Begin again, warmup included.
    pub fn restart(&mut self)
        ensures
            final(self)@ == CaptureState::fresh(old(self)@.target),
    {
        self.warmup = 0;
        self.last_present_ns = None;
        self.submission_intervals_ns.clear();
        self.gpu_ns.clear();
        self.display_times_ns.clear();
        self.first_present_id = 0;
        self.last_present_id = 0;
    }

    /// Take note of a successful present.
    pub fn submitted(&mut self, now_ns: u64, boot_elapsed_ns: u64, id: u64) -> (r: Progress)
        requires
            old(self)@.wf(),
            old(self)@.progress(boot_elapsed_ns) == Progress::Started ==> id < u64::MAX,
        ensures
            final(self)@ == old(self)@.after_present(now_ns, boot_elapsed_ns, id),
            final(self)@.wf(),
            r == old(self)@.progress(boot_elapsed_ns),
    {
        if boot_elapsed_ns < WARMUP_NS {
            return Progress::Warmup;
        }
        if self.warmup < WARMUP_PRESENTS {
            self.warmup = self.warmup + 1;
            if self.warmup == WARMUP_PRESENTS {
                self.last_present_ns = Some(now_ns);
                self.first_present_id = id + 1;
                return Progress::Started;
            }
            return Progress::Warmup;
        }
        let interval: u64 = match self.last_present_ns {
            Some(previous) => if now_ns >= previous {
                now_ns - previous
            } else {
                0
            },
            None => 0,
        };
        self.last_present_ns = Some(now_ns);
        self.submission_intervals_ns.push(interval);
        self.last_present_id = id;
        if self.submission_intervals_ns.len() as u64 >= self.target {
            Progress::Complete
        } else {
            Progress::Measuring
        }
    }

    /// Take note of finished GPU work. A reused swapchain slot returns older
    /// work: it does not contaminate the measured window.
    pub fn gpu_sample(&mut self, submitted_id: u64, ns: u64)
        ensures
            final(self)@ == (CaptureState {
                gpu_ns: if old(self)@.measures(submitted_id) {
                    old(self)@.gpu_ns.push(ns)
                } else {
                    old(self)@.gpu_ns
                },
                ..old(self)@
            }),
    {
        if self.first_present_id != 0 && submitted_id >= self.first_present_id {
            self.gpu_ns.push(ns);
        }
    }

    /// Take note of when an image was displayed.
    pub fn displayed(&mut self, submitted_id: u64, actual_time_ns: u64)
        ensures
            final(self)@ == (CaptureState {
                display_times_ns: if old(self)@.measures(submitted_id) && submitted_id <= old(
                    self,
                )@.last_present_id && actual_time_ns != 0 {
                    old(self)@.display_times_ns.push(actual_time_ns)
                } else {
                    old(self)@.display_times_ns
                },
                ..old(self)@
            }),
    {
        if self.first_present_id != 0 && submitted_id >= self.first_present_id && submitted_id
            <= self.last_present_id && actual_time_ns != 0 {
            self.display_times_ns.push(actual_time_ns);
        }
    }

    /// What the benchmark found. The samples are left in order, and repeated
    /// display times once.
    pub fn measure(&mut self) -> (r: Measurement)
        requires
            old(self)@.submission_intervals_ns.len() > 0,
        ensures
            r == measurement(old(self)@),
            r.submissions.samples > 0,
            r.gpu matches Some(d) ==> d.samples > 0,
            r.display matches Some(d) ==> d.samples > 0,
            final(self)@ == (CaptureState {
                submission_intervals_ns: ascending(old(self)@.submission_intervals_ns),
                gpu_ns: ascending(old(self)@.gpu_ns),
                display_times_ns: distinct(ascending(old(self)@.display_times_ns)),
                ..old(self)@
            }),
    {
        let ghost c = self@;
        let submissions: Option<Distribution> = Distribution::from_ns(
            &mut self.submission_intervals_ns,
        );
        let gpu: Option<Distribution> = Distribution::from_ns(&mut self.gpu_ns);
        sort(&mut self.display_times_ns);
        proof {
            sorted_is_ascending(c.display_times_ns, self.display_times_ns@);
            ascending_facts(c.display_times_ns);
            distinct_facts(self.display_times_ns@);
        }
        self.display_times_ns = dedup(&self.display_times_ns);
        let displayed: usize = self.display_times_ns.len();
        let mut intervals: Vec<u64> = neighbour_gaps(&self.display_times_ns);
        let display: Option<Distribution> = Distribution::from_ns(&mut intervals);
        let submissions: Distribution = match submissions {
            Some(d) => d,
            None => {
                assert(false);
                Distribution {
                    samples: 0,
                    total_ns: 0,
                    p50_ns: 0,
                    p95_ns: 0,
                    p99_ns: 0,
                    max_ns: 0,
                    over_budget: 0,
                }
            },
        };
        Measurement { submissions, gpu, display, displayed }
    }

    /// One JSON line suitable for collection by a tool.
    pub fn report(&mut self, metadata: &str) -> (r: String)
        requires
            old(self)@.submission_intervals_ns.len() > 0,
        ensures
            r@ == report_json(measurement(old(self)@), metadata@),
            final(self)@ == (CaptureState {
                submission_intervals_ns: ascending(old(self)@.submission_intervals_ns),
                gpu_ns: ascending(old(self)@.gpu_ns),
                display_times_ns: distinct(ascending(old(self)@.display_times_ns)),
                ..old(self)@
            }),
    {
        self.measure().json(metadata)
    }
}

// ---------------------------------------------------------------------------
// What the figures say
// ---------------------------------------------------------------------------

/// Sums and counts of samples that were taken apart add up, whatever the parts:
/// a single sample counts with its own time, and is over budget where it took
/// more than a millisecond.
pub proof fn samples_add_up(a: Seq<u64>, b: Seq<u64>, x: u64)
    ensures
        total(a + b) == total(a) + total(b),
        over_budget(a + b) == over_budget(a) + over_budget(b),
        total(seq![x]) == x,
        over_budget(seq![x]) == if x > 1_000_000 {
            1nat
        } else {
            0
        },
    decreases b.len(),
{
    assert(seq![x].drop_last() =~= Seq::empty());
    assert(total(seq![x].drop_last()) == 0);
    assert(over_budget(seq![x].drop_last()) == 0);
    if b.len() == 0 {
        assert(a + b =~= a);
    } else {
        samples_add_up(a, b.drop_last(), x);
        assert((a + b).drop_last() =~= a + b.drop_last());
    }
}

proof fn over_budget_without(s: Seq<u64>, i: int)
    requires
        0 <= i < s.len(),
    ensures
        over_budget(s) == over_budget(s.remove(i)) + over_budget(seq![s[i]]),
{
    let (a, b) = (s.take(i), s.skip(i + 1));
    assert(s =~= a + seq![s[i]] + b);
    assert(s.remove(i) =~= a + b);
    samples_add_up(a + seq![s[i]], b, 0);
    samples_add_up(a, seq![s[i]], 0);
    samples_add_up(a, b, 0);
}

proof fn over_budget_in_any_order(s: Seq<u64>, t: Seq<u64>)
    requires
        s.to_multiset() == t.to_multiset(),
    ensures
        over_budget(s) == over_budget(t),
    decreases s.len(),
{
    s.to_multiset_ensures();
    t.to_multiset_ensures();
    if s.len() > 0 {
        let x = s.last();
        let n = s.len() - 1;
        assert(s[n] == x);
        assert(s.to_multiset().count(x) > 0 && t.to_multiset().count(x) > 0);
        assert(t.contains(x));
        let i = choose|i: int| 0 <= i < t.len() && t[i] == x;
        over_budget_without(s, n);
        over_budget_without(t, i);
        over_budget_in_any_order(s.remove(n), t.remove(i));
    } else {
        assert(s =~= t);
    }
}

proof fn over_budget_within(s: Seq<u64>, n: int)
    requires
        0 <= n <= s.len(),
        forall|i: int| 0 <= i < n ==> #[trigger] s[i] <= 1_000_000,
    ensures
        over_budget(s) <= s.len() - n,
    decreases s.len(),
{
    if s.len() > n {
        over_budget_within(s.drop_last(), n);
    } else if s.len() > 0 {
        over_budget_within(s.drop_last(), n - 1);
    }
}

/// A sample of a rank: the first, from the shortest on, at which a share of all
/// samples has been seen.
pub open spec fn has_rank(s: Seq<u64>, percent: int, sample: u64) -> bool {
    exists|r: int|
        0 <= r < s.len() && 100 * r < percent * s.len() <= 100 * (r + 1) && sample
            == #[trigger] ascending(s)[r]
}

/// A distribution tells the number of samples, their sum and the share that is
/// over budget, and each percentile is the sample of that rank.
pub proof fn distributions_tell_shares(s: Seq<u64>)
    requires
        0 < s.len() <= usize::MAX,
    ensures
        distribution(s).samples == s.len(),
        distribution(s).total_ns == total(s),
        distribution(s).over_budget == over_budget(s),
        has_rank(s, 50, distribution(s).p50_ns),
        has_rank(s, 95, distribution(s).p95_ns),
        has_rank(s, 99, distribution(s).p99_ns),
        ascending(s).to_multiset() == s.to_multiset(),
        forall|i: int, j: int|
            0 <= i <= j < s.len() ==> #[trigger] ascending(s)[i] <= #[trigger] ascending(s)[j],
{
    ascending_facts(s);
    total_bound(s);
    let n = s.len();
    assert(n * u64::MAX <= u128::MAX) by (nonlinear_arith)
        requires
            n <= u64::MAX,
    ;
    nearest_rank_covers(n, 50);
    nearest_rank_covers(n, 95);
    nearest_rank_covers(n, 99);
    assert(distribution(s).p50_ns == ascending(s)[nearest_rank(n, 50)]);
    assert(distribution(s).p95_ns == ascending(s)[nearest_rank(n, 95)]);
    assert(distribution(s).p99_ns == ascending(s)[nearest_rank(n, 99)]);
}

/// The longest duration of a distribution is a sample, and no sample is longer.
pub proof fn the_longest_is_a_sample(s: Seq<u64>, i: int)
    requires
        0 <= i < s.len(),
    ensures
        s[i] <= distribution(s).max_ns,
        s.contains(distribution(s).max_ns),
{
    ascending_facts(s);
    let a = ascending(s);
    s.to_multiset_ensures();
    a.to_multiset_ensures();
    assert(a[s.len() - 1] == a.last());
    assert(a.contains(a.last()) && s.contains(s[i]));
    assert(a.to_multiset().count(a.last()) > 0 && s.to_multiset().count(a.last()) > 0);
    assert(s.to_multiset().count(s[i]) > 0 && a.to_multiset().count(s[i]) > 0);
    assert(a.contains(s[i]));
    let j = choose|j: int| 0 <= j < a.len() && a[j] == s[i];
    assert(a[j] <= a[s.len() - 1]);
}

/// Frames that all stay within a millisecond meet the target. Where more than
/// one in a hundred takes longer, the target is missed, and so it is where
/// nothing took any time at all.
pub proof fn steady_frames_meet_the_target(s: Seq<u64>)
    requires
        0 < s.len() <= usize::MAX,
    ensures
        (forall|i: int| 0 <= i < s.len() ==> #[trigger] s[i] <= 1_000_000) && total(s) > 0
            ==> meets_target(distribution(s)),
        100 * over_budget(s) > s.len() ==> !meets_target(distribution(s)),
        total(s) == 0 ==> !meets_target(distribution(s)),
        total(s) > 1_000_000 * s.len() ==> !meets_target(distribution(s)),
{
    distributions_tell_shares(s);
    ascending_facts(s);
    let (n, a) = (s.len(), ascending(s));
    let r = nearest_rank(n, 99);
    nearest_rank_covers(n, 99);
    if forall|i: int| 0 <= i < s.len() ==> #[trigger] s[i] <= 1_000_000 {
        total_within(s);
        s.to_multiset_ensures();
        a.to_multiset_ensures();
        assert(a.contains(a[r]));
        assert(a.to_multiset().count(a[r]) > 0 && s.to_multiset().count(a[r]) > 0);
        assert(s.contains(a[r]));
    }
    if 100 * over_budget(s) > n && a[r] <= 1_000_000 {
        assert forall|i: int| 0 <= i < r + 1 implies #[trigger] a[i] <= 1_000_000 by {
            assert(a[i] <= a[r]);
        }
        over_budget_within(a, r + 1);
        over_budget_in_any_order(s, a);
        assert(false);
    }
}

proof fn total_within(s: Seq<u64>)
    requires
        forall|i: int| 0 <= i < s.len() ==> #[trigger] s[i] <= 1_000_000,
    ensures
        total(s) <= 1_000_000 * s.len(),
    decreases s.len(),
{
    if s.len() > 0 {
        total_within(s.drop_last());
    }
}

/// A measured interval is the time from one present to the next, and none where
/// the clock ran backwards. The next one starts at the present that ended it.
pub proof fn intervals_lead_to_the_next_present(
    c: CaptureState,
    now_ns: u64,
    boot_elapsed_ns: u64,
    id: u64,
    previous: u64,
)
    requires
        c.wf(),
        c.last_present_ns == Some(previous),
        boot_elapsed_ns >= 2_000_000_000,
    ensures
        ({
            let next = c.after_present(now_ns, boot_elapsed_ns, id);
            &&& previous <= now_ns ==> previous + next.submission_intervals_ns.last() == now_ns
            &&& previous > now_ns ==> next.submission_intervals_ns.last() == 0
            &&& next.submission_intervals_ns.drop_last() == c.submission_intervals_ns
            &&& next.last_present_ns == Some(now_ns)
            &&& next.last_present_id == id
            &&& next.gpu_ns == c.gpu_ns && next.display_times_ns == c.display_times_ns
        }),
{
    let next = c.after_present(now_ns, boot_elapsed_ns, id);
    assert(next.submission_intervals_ns.drop_last() =~= c.submission_intervals_ns);
}

/// The first two seconds do not count, and neither do the first 500 presents
/// after them: the last of these starts the clock. A capture that starts anew
/// measures no work at all.
pub proof fn the_warmup_lasts(
    c: CaptureState,
    now_ns: u64,
    boot_elapsed_ns: u64,
    id: u64,
    old_id: u64,
)
    requires
        c.wf(),
    ensures
        boot_elapsed_ns < 2_000_000_000 ==> c.after_present(now_ns, boot_elapsed_ns, id) == c,
        boot_elapsed_ns >= 2_000_000_000 && c.warmup < 500 ==> c.after_present(
            now_ns,
            boot_elapsed_ns,
            id,
        ).warmup == c.warmup + 1,
        c.last_present_ns is None && boot_elapsed_ns >= 2_000_000_000 ==> (c.after_present(
            now_ns,
            boot_elapsed_ns,
            id,
        ).last_present_ns == Some(now_ns) <==> c.warmup == 499),
        CaptureState::fresh(c.target).warmup == 0,
        !CaptureState::fresh(c.target).measures(old_id),
        CaptureState::fresh(c.target).wf(),
{
}

proof fn distinct_is_nonempty(s: Seq<u64>)
    requires
        s.len() > 0,
    ensures
        distinct(s).len() > 0,
    decreases s.len(),
{
    if s.len() > 1 {
        distinct_is_nonempty(s.drop_last());
    }
}

/// Taking out repetitions loses no time, and adds none.
pub proof fn repetitions_are_all_that_goes(s: Seq<u64>, v: u64)
    ensures
        distinct(s).contains(v) <==> s.contains(v),
    decreases s.len(),
{
    if s.len() > 1 {
        let t = s.drop_last();
        repetitions_are_all_that_goes(t, v);
        distinct_is_nonempty(t);
        let (before, all) = (distinct(t), distinct(s));
        assert(before[before.len() - 1] == before.last());
        if s.contains(v) {
            let i = choose|i: int| 0 <= i < s.len() && s[i] == v;
            if i < t.len() {
                assert(t[i] == v);
                let j = choose|j: int| 0 <= j < before.len() && before[j] == v;
                assert(all[j] == v);
            } else if before.last() != v {
                assert(all[before.len() as int] == v);
            } else {
                assert(all[before.len() - 1] == v);
            }
        }
        if all.contains(v) {
            let j = choose|j: int| 0 <= j < all.len() && all[j] == v;
            if j < before.len() {
                assert(before[j] == v);
                let i = choose|i: int| 0 <= i < t.len() && t[i] == v;
                assert(s[i] == v);
            } else {
                assert(s[s.len() - 1] == v);
            }
        }
    }
}

/// Gaps lead from each time to the next, so that all of them lead from the
/// first to the last.
pub proof fn gaps_lead_from_first_to_last(s: Seq<u64>)
    requires
        s.len() > 0,
        forall|i: int, j: int| 0 <= i <= j < s.len() ==> #[trigger] s[i] <= #[trigger] s[j],
    ensures
        gaps(s).len() == s.len() - 1,
        s[0] + total(gaps(s)) == s.last(),
        forall|i: int| 0 <= i < gaps(s).len() ==> s[i] + #[trigger] gaps(s)[i] == s[i + 1],
    decreases s.len(),
{
    let g = gaps(s);
    if s.len() > 1 {
        let t = s.drop_last();
        assert forall|i: int, j: int| 0 <= i <= j < t.len() implies #[trigger] t[i]
            <= #[trigger] t[j] by {
            assert(s[i] <= s[j]);
        }
        gaps_lead_from_first_to_last(t);
        assert(g.drop_last() =~= gaps(t));
        assert(s[s.len() - 2] <= s[s.len() - 1]);
        assert forall|i: int| 0 <= i < g.len() implies s[i] + #[trigger] g[i] == s[i + 1] by {
            assert(s[i] <= s[i + 1]);
        }
    }
}

/// A rate is the number of presents by the time they took: what it makes of
/// that time is off by half a thousandth, or half a tenth, at most.
pub proof fn rates_are_per_second(m: Measurement)
    requires
        m.submissions.total_ns > 0,
    ensures
        ({
            let (n, t) = (m.submissions.samples as int, m.submissions.total_ns as int);
            let exact = 1000 * (n * 1_000_000_000);
            &&& 2 * (m.rate() * t) <= 2 * exact + t
            &&& 2 * exact < 2 * (m.rate() * t) + t
            &&& 2 * (m.rate_tenths() * t) <= 2 * (10 * (n * 1_000_000_000)) + t
            &&& 2 * (10 * (n * 1_000_000_000)) < 2 * (m.rate_tenths() * t) + t
        }),
{
    let n = m.submissions.samples;
    text::rounding_is_near(
        (n * 1_000_000_000_000) as nat,
        m.submissions.total_ns as nat,
    );
    text::rounding_is_near((n * 10_000_000_000) as nat, m.submissions.total_ns as nat);
}

proof fn doubling_keeps_thousands(n: nat)
    requires
        n % 1000 == 0,
    ensures
        doubled(n) % 1000 == 0,
    decreases 2 * QUOTIENT_SCALE - n,
{
    if n != 0 && n < QUOTIENT_SCALE {
        doubling_keeps_thousands(2 * n);
    }
}

/// A duration in tenths of a microsecond is off by half a tenth at most. Where
/// it lies exactly in the middle, it goes to the even one.
pub proof fn short_durations_are_near(ns: u64)
    ensures
        -50 <= 100 * short_tenths(ns) - ns <= 50,
        ns % 500 == 250 && ns <= 500_000_000_000_000_000 ==> short_tenths(ns) % 2 == 0,
{
    if ns % 500 == 250 && ns <= 500_000_000_000_000_000 {
        let n = ns as nat;
        reveal_with_fuel(doubled, 4);
        assert(doubled(n) == doubled(8 * n));
        assert((8 * n) % 1000 == 0);
        doubling_keeps_thousands(8 * n);
    }
}

/// The display target is certified by full feedback and by nothing less, and
/// by the same measure as the submissions.
pub proof fn full_feedback_certifies(m: Measurement, d: Distribution)
    ensures
        m.display_target() is Some <==> m.displayed == m.submissions.samples && m.display is Some,
        m.displayed == m.submissions.samples && m.display == Some(d) ==> m.display_target()
            == Some(0 < d.total_ns <= d.samples * 1_000_000 && d.p99_ns <= 1_000_000),
        m.display_target() == Some(true) && m.display == Some(m.submissions)
            ==> m.submission_target(),
{
}

/// A capture is measured by what it holds: intervals by the intervals, GPU time
/// by the GPU samples, and the display by the times between distinct images.
pub proof fn captures_are_measured_by_their_samples(a: CaptureState, b: CaptureState)
    ensures
        a.submission_intervals_ns == b.submission_intervals_ns ==> measurement(a).submissions
            == measurement(b).submissions,
        a.gpu_ns == b.gpu_ns ==> measurement(a).gpu == measurement(b).gpu,
        a.display_times_ns == b.display_times_ns ==> measurement(a).display == measurement(
            b,
        ).display && measurement(a).displayed == measurement(b).displayed,
        measurement(a).gpu is Some <==> a.gpu_ns.len() > 0,
        a.gpu_ns == a.submission_intervals_ns && a.gpu_ns.len() > 0 ==> measurement(a).gpu == Some(
            measurement(a).submissions,
        ),
{
}

// ---------------------------------------------------------------------------
// What the reports say
// ---------------------------------------------------------------------------

/// Only one number is a quotient rounded to the nearest, halves up.
proof fn one_number_is_near(a: nat, b: nat, n: nat)
    requires
        b > 0,
        2 * (n * b) <= 2 * a + b,
        2 * a < 2 * (n * b) + b,
    ensures
        n == text::rounded(a, b),
{
    text::rounding_is_near(a, b);
    let m = text::rounded(a, b);
    assert(n == m) by (nonlinear_arith)
        requires
            b > 0,
            2 * (n * b) <= 2 * a + b,
            2 * a < 2 * (n * b) + b,
            2 * (m * b) <= 2 * a + b,
            2 * a < 2 * (m * b) + b,
    ;
}

/// The text of a distribution tells each figure under its name: durations in
/// microseconds with three digits behind the point, and the mean rounded to the
/// nearest of them.
pub proof fn distributions_are_told_by_name(d: Distribution, mean: nat)
    requires
        d.samples > 0,
        2 * (mean * d.samples) <= 2 * d.total_ns + d.samples,
        2 * d.total_ns < 2 * (mean * d.samples) + d.samples,
    ensures
        text::says(
            distribution_json(d),
            "{\"samples\":"@ + text::decimal(d.samples as nat) + ",\"mean_us\":"@,
        ),
        text::says(
            distribution_json(d),
            ",\"mean_us\":"@ + text::thousandths(mean) + ",\"p50_us\":"@,
        ),
        text::says(
            distribution_json(d),
            ",\"p50_us\":"@ + text::thousandths(d.p50_ns as nat) + ",\"p95_us\":"@,
        ),
        text::says(
            distribution_json(d),
            ",\"p95_us\":"@ + text::thousandths(d.p95_ns as nat) + ",\"p99_us\":"@,
        ),
        text::says(
            distribution_json(d),
            ",\"p99_us\":"@ + text::thousandths(d.p99_ns as nat) + ",\"max_us\":"@,
        ),
        text::says(
            distribution_json(d),
            ",\"max_us\":"@ + text::thousandths(d.max_ns as nat) + ",\"over_1ms\":"@,
        ),
        text::says(
            distribution_json(d),
            ",\"over_1ms\":"@ + text::decimal(d.over_budget as nat) + "}"@,
        ),
{
    one_number_is_near(d.total_ns as nat, d.samples as nat, mean);
    let w0 = "{\"samples\":"@;
    let w1 = w0 + text::decimal(d.samples as nat);
    let w2 = w1 + ",\"mean_us\":"@;
    let w3 = w2 + text::thousandths(mean);
    let w4 = w3 + ",\"p50_us\":"@;
    let w5 = w4 + text::thousandths(d.p50_ns as nat);
    let w6 = w5 + ",\"p95_us\":"@;
    let w7 = w6 + text::thousandths(d.p95_ns as nat);
    let w8 = w7 + ",\"p99_us\":"@;
    let w9 = w8 + text::thousandths(d.p99_ns as nat);
    let w10 = w9 + ",\"max_us\":"@;
    let w11 = w10 + text::thousandths(d.max_ns as nat);
    let w12 = w11 + ",\"over_1ms\":"@;
    let w13 = w12 + text::decimal(d.over_budget as nat);
    let w14 = w13 + "}"@;
    assert(w14 == distribution_json(d));
    text::starts_are_said(w14, w14, "{\"samples\":"@);
    text::starts_start_with_their_starts(w14, w13, "}"@);
    text::starts_start_with_their_starts(w14, w12, text::decimal(d.over_budget as nat));
    text::starts_start_with_their_starts(w14, w11, ",\"over_1ms\":"@);
    text::starts_start_with_their_starts(w14, w10, text::thousandths(d.max_ns as nat));
    text::starts_start_with_their_starts(w14, w9, ",\"max_us\":"@);
    text::starts_start_with_their_starts(w14, w8, text::thousandths(d.p99_ns as nat));
    text::starts_start_with_their_starts(w14, w7, ",\"p99_us\":"@);
    text::starts_start_with_their_starts(w14, w6, text::thousandths(d.p95_ns as nat));
    text::starts_start_with_their_starts(w14, w5, ",\"p95_us\":"@);
    text::starts_start_with_their_starts(w14, w4, text::thousandths(d.p50_ns as nat));
    text::starts_start_with_their_starts(w14, w3, ",\"p50_us\":"@);
    text::starts_start_with_their_starts(w14, w2, text::thousandths(mean));
    text::starts_start_with_their_starts(w14, w1, ",\"mean_us\":"@);
    text::starts_start_with_their_starts(w14, w0, text::decimal(d.samples as nat));
    text::ends_are_said(
        Seq::empty(),
        "{\"samples\":"@,
        text::decimal(d.samples as nat),
        ",\"mean_us\":"@,
    );
    text::starts_are_said(
        w14,
        w2,
        "{\"samples\":"@ + text::decimal(d.samples as nat) + ",\"mean_us\":"@,
    );
    text::ends_are_said(w1, ",\"mean_us\":"@, text::thousandths(mean), ",\"p50_us\":"@);
    text::starts_are_said(w14, w4, ",\"mean_us\":"@ + text::thousandths(mean) + ",\"p50_us\":"@);
    text::ends_are_said(w3, ",\"p50_us\":"@, text::thousandths(d.p50_ns as nat), ",\"p95_us\":"@);
    text::starts_are_said(
        w14,
        w6,
        ",\"p50_us\":"@ + text::thousandths(d.p50_ns as nat) + ",\"p95_us\":"@,
    );
    text::ends_are_said(w5, ",\"p95_us\":"@, text::thousandths(d.p95_ns as nat), ",\"p99_us\":"@);
    text::starts_are_said(
        w14,
        w8,
        ",\"p95_us\":"@ + text::thousandths(d.p95_ns as nat) + ",\"p99_us\":"@,
    );
    text::ends_are_said(w7, ",\"p99_us\":"@, text::thousandths(d.p99_ns as nat), ",\"max_us\":"@);
    text::starts_are_said(
        w14,
        w10,
        ",\"p99_us\":"@ + text::thousandths(d.p99_ns as nat) + ",\"max_us\":"@,
    );
    text::ends_are_said(w9, ",\"max_us\":"@, text::thousandths(d.max_ns as nat), ",\"over_1ms\":"@);
    text::starts_are_said(
        w14,
        w12,
        ",\"max_us\":"@ + text::thousandths(d.max_ns as nat) + ",\"over_1ms\":"@,
    );
    text::ends_are_said(w11, ",\"over_1ms\":"@, text::decimal(d.over_budget as nat), "}"@);
    text::starts_are_said(w14, w14, ",\"over_1ms\":"@ + text::decimal(d.over_budget as nat) + "}"@);
}

/// The report tells each result under its name, and what was not measured as
/// null.
pub proof fn reports_tell_what_was_measured(m: Measurement, metadata: Seq<char>)
    ensures
        text::says(
            report_json(m, metadata),
            "{\"schema\":\"explora.frame-budget.v1\",\"target_fps\":1000,\"target_frame_us\":1000,\"criterion\":\"mean_and_p99\",\"present_submissions_per_second\":"@ + text::thousandths(m.rate()) + ",\"submission_target_met\":"@,
        ),
        text::says(
            report_json(m, metadata),
            ",\"submission_target_met\":"@ + text::truth(m.submission_target()) + ",\"display_target_met\":"@,
        ),
        text::says(
            report_json(m, metadata),
            ",\"display_target_met\":"@ + maybe_bool_json(m.display_target()) + ",\"display_feedback_frames\":"@,
        ),
        text::says(
            report_json(m, metadata),
            ",\"display_feedback_frames\":"@ + text::decimal(m.displayed as nat) + ",\"submission_interval\":"@,
        ),
        text::says(
            report_json(m, metadata),
            ",\"submission_interval\":"@ + distribution_json(m.submissions) + ",\"gpu_frame\":"@,
        ),
        text::says(
            report_json(m, metadata),
            ",\"gpu_frame\":"@ + maybe_json(m.gpu) + ",\"display_interval\":"@,
        ),
        text::says(
            report_json(m, metadata),
            ",\"display_interval\":"@ + maybe_json(m.display) + ",\"config\":"@,
        ),
        text::says(
            report_json(m, metadata),
            ",\"config\":"@ + metadata + "}"@,
        ),
        maybe_bool_json(None) == "null"@ && maybe_json(None) == "null"@,
        forall|b: bool| #[trigger] maybe_bool_json(Some(b)) == text::truth(b),
        forall|d: Distribution| #[trigger] maybe_json(Some(d)) == distribution_json(d),
{
    let w0 = "{\"schema\":\"explora.frame-budget.v1\",\"target_fps\":1000,\"target_frame_us\":1000,\"criterion\":\"mean_and_p99\",\"present_submissions_per_second\":"@;
    let w1 = w0 + text::thousandths(m.rate());
    let w2 = w1 + ",\"submission_target_met\":"@;
    let w3 = w2 + text::truth(m.submission_target());
    let w4 = w3 + ",\"display_target_met\":"@;
    let w5 = w4 + maybe_bool_json(m.display_target());
    let w6 = w5 + ",\"display_feedback_frames\":"@;
    let w7 = w6 + text::decimal(m.displayed as nat);
    let w8 = w7 + ",\"submission_interval\":"@;
    let w9 = w8 + distribution_json(m.submissions);
    let w10 = w9 + ",\"gpu_frame\":"@;
    let w11 = w10 + maybe_json(m.gpu);
    let w12 = w11 + ",\"display_interval\":"@;
    let w13 = w12 + maybe_json(m.display);
    let w14 = w13 + ",\"config\":"@;
    let w15 = w14 + metadata;
    let w16 = w15 + "}"@;
    assert(w16 == report_json(m, metadata));
    text::starts_are_said(
        w16,
        w16,
        "{\"schema\":\"explora.frame-budget.v1\",\"target_fps\":1000,\"target_frame_us\":1000,\"criterion\":\"mean_and_p99\",\"present_submissions_per_second\":"@,
    );
    text::starts_start_with_their_starts(w16, w15, "}"@);
    text::starts_start_with_their_starts(w16, w14, metadata);
    text::starts_start_with_their_starts(w16, w13, ",\"config\":"@);
    text::starts_start_with_their_starts(w16, w12, maybe_json(m.display));
    text::starts_start_with_their_starts(w16, w11, ",\"display_interval\":"@);
    text::starts_start_with_their_starts(w16, w10, maybe_json(m.gpu));
    text::starts_start_with_their_starts(w16, w9, ",\"gpu_frame\":"@);
    text::starts_start_with_their_starts(w16, w8, distribution_json(m.submissions));
    text::starts_start_with_their_starts(w16, w7, ",\"submission_interval\":"@);
    text::starts_start_with_their_starts(w16, w6, text::decimal(m.displayed as nat));
    text::starts_start_with_their_starts(w16, w5, ",\"display_feedback_frames\":"@);
    text::starts_start_with_their_starts(w16, w4, maybe_bool_json(m.display_target()));
    text::starts_start_with_their_starts(w16, w3, ",\"display_target_met\":"@);
    text::starts_start_with_their_starts(w16, w2, text::truth(m.submission_target()));
    text::starts_start_with_their_starts(w16, w1, ",\"submission_target_met\":"@);
    text::starts_start_with_their_starts(w16, w0, text::thousandths(m.rate()));
    text::ends_are_said(
        Seq::empty(),
        "{\"schema\":\"explora.frame-budget.v1\",\"target_fps\":1000,\"target_frame_us\":1000,\"criterion\":\"mean_and_p99\",\"present_submissions_per_second\":"@,
        text::thousandths(m.rate()),
        ",\"submission_target_met\":"@,
    );
    text::starts_are_said(
        w16,
        w2,
        "{\"schema\":\"explora.frame-budget.v1\",\"target_fps\":1000,\"target_frame_us\":1000,\"criterion\":\"mean_and_p99\",\"present_submissions_per_second\":"@ + text::thousandths(m.rate()) + ",\"submission_target_met\":"@,
    );
    text::ends_are_said(
        w1,
        ",\"submission_target_met\":"@,
        text::truth(m.submission_target()),
        ",\"display_target_met\":"@,
    );
    text::starts_are_said(
        w16,
        w4,
        ",\"submission_target_met\":"@ + text::truth(m.submission_target()) + ",\"display_target_met\":"@,
    );
    text::ends_are_said(
        w3,
        ",\"display_target_met\":"@,
        maybe_bool_json(m.display_target()),
        ",\"display_feedback_frames\":"@,
    );
    text::starts_are_said(
        w16,
        w6,
        ",\"display_target_met\":"@ + maybe_bool_json(m.display_target()) + ",\"display_feedback_frames\":"@,
    );
    text::ends_are_said(
        w5,
        ",\"display_feedback_frames\":"@,
        text::decimal(m.displayed as nat),
        ",\"submission_interval\":"@,
    );
    text::starts_are_said(
        w16,
        w8,
        ",\"display_feedback_frames\":"@ + text::decimal(m.displayed as nat) + ",\"submission_interval\":"@,
    );
    text::ends_are_said(
        w7,
        ",\"submission_interval\":"@,
        distribution_json(m.submissions),
        ",\"gpu_frame\":"@,
    );
    text::starts_are_said(
        w16,
        w10,
        ",\"submission_interval\":"@ + distribution_json(m.submissions) + ",\"gpu_frame\":"@,
    );
    text::ends_are_said(w9, ",\"gpu_frame\":"@, maybe_json(m.gpu), ",\"display_interval\":"@);
    text::starts_are_said(
        w16,
        w12,
        ",\"gpu_frame\":"@ + maybe_json(m.gpu) + ",\"display_interval\":"@,
    );
    text::ends_are_said(w11, ",\"display_interval\":"@, maybe_json(m.display), ",\"config\":"@);
    text::starts_are_said(
        w16,
        w14,
        ",\"display_interval\":"@ + maybe_json(m.display) + ",\"config\":"@,
    );
    text::ends_are_said(w13, ",\"config\":"@, metadata, "}"@);
    text::starts_are_said(w16, w16, ",\"config\":"@ + metadata + "}"@);
}

/// The summary tells the rate, the percentiles and the longest duration, and
/// whether the target was met.
pub proof fn summaries_tell_the_verdict(m: Measurement, verdict: Seq<char>)
    requires
        m.submission_target() ==> verdict == "PASS"@,
        !m.submission_target() ==> verdict == "FAIL"@,
    ensures
        text::says(
            summary_text(m),
            "benchmark: present submissions "@ + text::tenths(m.rate_tenths()) + "/s | 1ms budget p50 "@,
        ),
        text::says(
            summary_text(m),
            "/s | 1ms budget p50 "@ + short_us(m.submissions.p50_ns) + " p95 "@,
        ),
        text::says(
            summary_text(m),
            " p95 "@ + short_us(m.submissions.p95_ns) + " p99 "@,
        ),
        text::says(
            summary_text(m),
            " p99 "@ + short_us(m.submissions.p99_ns) + " max "@,
        ),
        text::says(
            summary_text(m),
            " max "@ + short_us(m.submissions.max_ns) + " us | mean+p99 target "@,
        ),
        text::says(
            summary_text(m),
            " us | mean+p99 target "@ + verdict + " | display feedback "@,
        ),
        text::says(
            summary_text(m),
            " | display feedback "@ + text::decimal(m.displayed as nat) + "/"@,
        ),
        text::says(
            summary_text(m),
            "/"@ + text::decimal(m.submissions.samples as nat),
        ),
{
    let w0 = "benchmark: present submissions "@;
    let w1 = w0 + text::tenths(m.rate_tenths());
    let w2 = w1 + "/s | 1ms budget p50 "@;
    let w3 = w2 + short_us(m.submissions.p50_ns);
    let w4 = w3 + " p95 "@;
    let w5 = w4 + short_us(m.submissions.p95_ns);
    let w6 = w5 + " p99 "@;
    let w7 = w6 + short_us(m.submissions.p99_ns);
    let w8 = w7 + " max "@;
    let w9 = w8 + short_us(m.submissions.max_ns);
    let w10 = w9 + " us | mean+p99 target "@;
    let w11 = w10 + verdict;
    let w12 = w11 + " | display feedback "@;
    let w13 = w12 + text::decimal(m.displayed as nat);
    let w14 = w13 + "/"@;
    let w15 = w14 + text::decimal(m.submissions.samples as nat);
    assert(w15 == summary_text(m));
    text::starts_are_said(w15, w15, "benchmark: present submissions "@);
    text::starts_start_with_their_starts(w15, w14, text::decimal(m.submissions.samples as nat));
    text::starts_start_with_their_starts(w15, w13, "/"@);
    text::starts_start_with_their_starts(w15, w12, text::decimal(m.displayed as nat));
    text::starts_start_with_their_starts(w15, w11, " | display feedback "@);
    text::starts_start_with_their_starts(w15, w10, verdict);
    text::starts_start_with_their_starts(w15, w9, " us | mean+p99 target "@);
    text::starts_start_with_their_starts(w15, w8, short_us(m.submissions.max_ns));
    text::starts_start_with_their_starts(w15, w7, " max "@);
    text::starts_start_with_their_starts(w15, w6, short_us(m.submissions.p99_ns));
    text::starts_start_with_their_starts(w15, w5, " p99 "@);
    text::starts_start_with_their_starts(w15, w4, short_us(m.submissions.p95_ns));
    text::starts_start_with_their_starts(w15, w3, " p95 "@);
    text::starts_start_with_their_starts(w15, w2, short_us(m.submissions.p50_ns));
    text::starts_start_with_their_starts(w15, w1, "/s | 1ms budget p50 "@);
    text::starts_start_with_their_starts(w15, w0, text::tenths(m.rate_tenths()));
    text::ends_are_said(
        Seq::empty(),
        "benchmark: present submissions "@,
        text::tenths(m.rate_tenths()),
        "/s | 1ms budget p50 "@,
    );
    text::starts_are_said(
        w15,
        w2,
        "benchmark: present submissions "@ + text::tenths(m.rate_tenths()) + "/s | 1ms budget p50 "@,
    );
    text::ends_are_said(w1, "/s | 1ms budget p50 "@, short_us(m.submissions.p50_ns), " p95 "@);
    text::starts_are_said(
        w15,
        w4,
        "/s | 1ms budget p50 "@ + short_us(m.submissions.p50_ns) + " p95 "@,
    );
    text::ends_are_said(w3, " p95 "@, short_us(m.submissions.p95_ns), " p99 "@);
    text::starts_are_said(w15, w6, " p95 "@ + short_us(m.submissions.p95_ns) + " p99 "@);
    text::ends_are_said(w5, " p99 "@, short_us(m.submissions.p99_ns), " max "@);
    text::starts_are_said(w15, w8, " p99 "@ + short_us(m.submissions.p99_ns) + " max "@);
    text::ends_are_said(w7, " max "@, short_us(m.submissions.max_ns), " us | mean+p99 target "@);
    text::starts_are_said(
        w15,
        w10,
        " max "@ + short_us(m.submissions.max_ns) + " us | mean+p99 target "@,
    );
    text::ends_are_said(w9, " us | mean+p99 target "@, verdict, " | display feedback "@);
    text::starts_are_said(w15, w12, " us | mean+p99 target "@ + verdict + " | display feedback "@);
    text::ends_are_said(w11, " | display feedback "@, text::decimal(m.displayed as nat), "/"@);
    text::starts_are_said(
        w15,
        w14,
        " | display feedback "@ + text::decimal(m.displayed as nat) + "/"@,
    );
    text::ends_are_said(w13, "/"@, text::decimal(m.submissions.samples as nat), Seq::empty());
    text::starts_are_said(w15, w15, "/"@ + text::decimal(m.submissions.samples as nat));
}

} // verus!
