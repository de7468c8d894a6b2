//! Decisions of the render thread: what a frame simulates and draws, what
//! follows a draw, and when display pacing is given up.
use crate::frame_budget::Progress;
use crate::gfx::{Extent, PresentMode};
use crate::hud;
use crate::input::Controls;
use crate::swap::DrawResult;
use crate::text;
use crate::text::{chars_of, push_decimal, push_truth};
use vstd::prelude::*;
use vstd::string::*;

verus! {

/// Timeouts in a row after which display pacing is given up. A single one is
/// tolerated: a dropped frame, or a window that is dragged.
pub const PACING_STRIKES: u32 = 2;

/// How long to wait for scanout.
pub const PACING_TIMEOUT_NS: u64 = 60_000_000;

/// Presents between readings of the display times.
pub const TIMING_EVERY: u64 = 64;

// ---------------------------------------------------------------------------
// Shader fingerprint
// ---------------------------------------------------------------------------

/// Fingerprint of a shader's source.
pub open spec fn fingerprint(bytes: Seq<u8>) -> u64
    decreases bytes.len(),
{
    if bytes.len() == 0 {
        0
    } else {
        fingerprint(bytes.drop_last()).wrapping_mul(1099511628211).wrapping_add(bytes.last() as u64)
    }
}

/// Fingerprint of a shader's source.
pub fn shader_hash(bytes: &[u8]) -> (h: u64)
    ensures
        h == fingerprint(bytes@),
{
    let n: usize = bytes.len();
    let mut h: u64 = 0;
    let mut i: usize = 0;
    assert(bytes@.take(0) =~= Seq::empty());
    while i < n
        invariant
            n == bytes@.len(),
            i <= n,
            h == fingerprint(bytes@.take(i as int)),
        decreases n - i,
    {
        assert(bytes@.take(i + 1).drop_last() =~= bytes@.take(i as int));
        h = h.wrapping_mul(1099511628211).wrapping_add(bytes[i] as u64);
        i += 1;
    }
    assert(bytes@.take(n as int) =~= bytes@);
    h
}

// ---------------------------------------------------------------------------
// A frame
// ---------------------------------------------------------------------------

/// What holds the simulation still.
#[derive(Clone, Copy, Debug, PartialEq, Eq, Structural)]
pub struct Freeze {
    /// Nothing moves.
    pub frozen: bool,
    /// The pose does not move, but time runs.
    pub freeze_pose: bool,
}

/// What a frame does.
#[derive(Clone, Copy, Debug, PartialEq, Eq, Structural)]
pub struct FramePlan {
    /// Put the flight back to its start.
    pub reset: bool,
    /// Drop the time that has passed, and draw the pose as it is.
    pub paused: bool,
    /// Step the pose in each physics tick.
    pub step_pose: bool,
    /// Step animation, effects and time in each physics tick.
    pub step_effects: bool,
    /// Draw between the last two poses.
    pub interpolate: bool,
    /// Let the camera follow.
    pub camera_moves: bool,
    /// Let the sound be heard.
    pub audible: bool,
}

/// What a frame does under a display state.
pub open spec fn planned(ui: u32, freeze: Freeze) -> FramePlan {
    let paused = ui & hud::PAUSED != 0;
    FramePlan {
        reset: ui & hud::RESET != 0,
        paused,
        step_pose: !freeze.freeze_pose,
        step_effects: !freeze.frozen,
        interpolate: !freeze.freeze_pose && !paused,
        camera_moves: !paused && !freeze.frozen,
        audible: ui & hud::AUDIO != 0 && !paused && !freeze.frozen,
    }
}

/// Decide what a frame does.
pub fn plan_frame(ui: u32, freeze: Freeze) -> (r: FramePlan)
    ensures
        r == planned(ui, freeze),
{
    let paused: bool = ui & hud::PAUSED != 0;
    FramePlan {
        reset: ui & hud::RESET != 0,
        paused,
        step_pose: !freeze.freeze_pose,
        step_effects: !freeze.frozen,
        interpolate: !freeze.freeze_pose && !paused,
        camera_moves: !paused && !freeze.frozen,
        audible: ui & hud::AUDIO != 0 && !paused && !freeze.frozen,
    }
}

/// Hold burner and bank for screenshots and benchmarks.
pub fn forced_controls(controls: Controls, force_boost: bool, force_bank: bool) -> (r: Controls)
    ensures
        r == (Controls {
            boost: controls.boost || force_boost,
            bank: if force_bank {
                1
            } else {
                controls.bank
            },
            ..controls
        }),
{
    Controls {
        pitch: controls.pitch,
        bank: if force_bank {
            1
        } else {
            controls.bank
        },
        yaw: controls.yaw,
        boost: controls.boost || force_boost,
    }
}

/// How the window relates to the swapchain.
#[derive(Clone, Copy, Debug, PartialEq, Eq, Structural)]
pub enum Viewport {
    /// The window has no area: nothing is drawn.
    Hidden,
    /// The swapchain has another size and must be recreated.
    Resized,
    /// The frame can be drawn.
    Fits,
}

/// Compare the window with the swapchain.
pub fn viewport(window: Extent, swapchain: Extent) -> (r: Viewport)
    ensures
        r == (if window.width == 0 || window.height == 0 {
            Viewport::Hidden
        } else if window != swapchain {
            Viewport::Resized
        } else {
            Viewport::Fits
        }),
{
    if window.width == 0 || window.height == 0 {
        Viewport::Hidden
    } else if swapchain.width != window.width || swapchain.height != window.height {
        Viewport::Resized
    } else {
        Viewport::Fits
    }
}

// ---------------------------------------------------------------------------
// After a draw
// ---------------------------------------------------------------------------

/// Counters of the render thread.
#[derive(Clone, Copy, Debug, PartialEq, Eq, Structural)]
pub struct LoopStats {
    /// Passes rendered since the last report.
    pub frames: u32,
    /// Presents since the last report.
    pub presents: u32,
    /// Skipped frames since the last report.
    pub skipped: u64,
    /// Presents since start.
    pub presented_total: u64,
}

/// What follows a draw.
#[derive(Clone, Copy, Debug, PartialEq, Eq, Structural)]
pub enum AfterDraw {
    /// Recreate the swapchain, and begin a benchmark again.
    Rebuild,
    Nothing,
    /// A frame was presented. Tells whether it is to be saved.
    Presented { shot: bool },
}

impl LoopStats {
    /// Nothing drawn.
    pub fn new() -> (r: LoopStats)
        ensures
            r == (LoopStats { frames: 0, presents: 0, skipped: 0, presented_total: 0 }),
    {
        LoopStats { frames: 0, presents: 0, skipped: 0, presented_total: 0 }
    }

    /// The counters after a draw.
    pub open spec fn after(self, result: DrawResult) -> LoopStats {
        match result {
            DrawResult::Rebuild => self,
            DrawResult::Skipped => LoopStats { skipped: (self.skipped + 1) as u64, ..self },
            DrawResult::Presented(rendered) => LoopStats {
                frames: (self.frames + rendered) as u32,
                presents: (self.presents + 1) as u32,
                presented_total: (self.presented_total + 1) as u64,
                ..self
            },
        }
    }

    /// Take note of a draw. `shots` lists the presents to save, and `saving`
    /// tells whether any are saved at all.
    pub fn after_draw(&mut self, result: DrawResult, saving: bool, shots: &Vec<u64>) -> (r:
        AfterDraw)
        requires
            result is Skipped ==> old(self).skipped < u64::MAX,
            result matches DrawResult::Presented(rendered) ==> {
                &&& old(self).frames + rendered <= u32::MAX
                &&& old(self).presents < u32::MAX
                &&& old(self).presented_total < u64::MAX
            },
        ensures
            *final(self) == old(self).after(result),
            r == (match result {
                DrawResult::Rebuild => AfterDraw::Rebuild,
                DrawResult::Skipped => AfterDraw::Nothing,
                DrawResult::Presented(_) => AfterDraw::Presented {
                    shot: saving && shots@.contains(final(self).presented_total),
                },
            }),
    {
        match result {
            DrawResult::Rebuild => AfterDraw::Rebuild,
            DrawResult::Skipped => {
                self.skipped = self.skipped + 1;
                AfterDraw::Nothing
            },
            DrawResult::Presented(rendered) => {
                self.frames = self.frames + rendered;
                self.presents = self.presents + 1;
                self.presented_total = self.presented_total + 1;
                AfterDraw::Presented { shot: saving && listed(shots, self.presented_total) }
            },
        }
    }

    /// Begin a new reporting interval: gives the counters of the last one.
    pub fn take(&mut self) -> (r: LoopStats)
        ensures
            r == *old(self),
            *final(self) == (LoopStats { frames: 0, presents: 0, skipped: 0, ..*old(self) }),
    {
        let r: LoopStats = *self;
        self.frames = 0;
        self.presents = 0;
        self.skipped = 0;
        r
    }
}

fn listed(list: &Vec<u64>, n: u64) -> (r: bool)
    ensures
        r == list@.contains(n),
{
    let mut i: usize = 0;
    while i < list.len()
        invariant
            i <= list.len(),
            forall|k: int| 0 <= k < i ==> list[k] != n,
        decreases list.len() - i,
    {
        if list[i] == n {
            return true;
        }
        i += 1;
    }
    false
}

/// What a benchmark does after a present.
#[derive(Clone, Copy, Debug, PartialEq, Eq, Structural)]
pub struct BenchStep {
    /// Forget the stage timings of the warmup.
    pub reset_stages: bool,
    /// Read the display times.
    pub collect: bool,
    /// Report and leave.
    pub finish: bool,
}

/// Decide what a benchmark does after a present.
pub fn bench_step(progress: Progress, present_id: u64) -> (r: BenchStep)
    ensures
        r == (BenchStep {
            reset_stages: progress == Progress::Started,
            collect: present_id % TIMING_EVERY == 0 || progress == Progress::Complete,
            finish: progress == Progress::Complete,
        }),
{
    BenchStep {
        reset_stages: progress == Progress::Started,
        collect: present_id % TIMING_EVERY == 0 || progress == Progress::Complete,
        finish: progress == Progress::Complete,
    }
}

// ---------------------------------------------------------------------------
// Display pacing
// ---------------------------------------------------------------------------

/// Display pacing of the render thread.
#[derive(Clone, Copy, Debug, PartialEq, Eq, Structural)]
pub struct Pacing {
    pub enabled: bool,
    /// Timeouts in a row.
    pub strikes: u32,
}

impl Pacing {
    /// Pacing still counts strikes only while it is on.
    pub open spec fn wf(self) -> bool {
        self.enabled ==> self.strikes <= PACING_STRIKES
    }

    /// Play paces to the display where nothing forbids it; a benchmark must
    /// stay unpaced to measure the submission rate.
    pub fn new(benchmarking: bool, requested: bool) -> (r: Pacing)
        ensures
            r == (Pacing { enabled: !benchmarking && requested, strikes: 0 }),
            r.wf(),
    {
        Pacing { enabled: !benchmarking && requested, strikes: 0 }
    }

    /// Pacing after a wait for scanout.
    pub open spec fn after(self, displayed: bool) -> Pacing {
        if displayed {
            Pacing { strikes: 0, ..self }
        } else {
            Pacing {
                enabled: self.strikes + 1 <= PACING_STRIKES,
                strikes: (self.strikes + 1) as u32,
            }
        }
    }

    /// Take note of a wait for scanout. Repeated failures mean that waiting
    /// does not work on this compositor: the result tells when pacing stops.
    pub fn waited(&mut self, displayed: bool) -> (gave_up: bool)
        requires
            old(self).wf(),
            old(self).enabled,
        ensures
            *final(self) == old(self).after(displayed),
            final(self).wf(),
            gave_up == !final(self).enabled,
    {
        if displayed {
            self.strikes = 0;
            false
        } else {
            self.strikes = self.strikes + 1;
            if self.strikes > PACING_STRIKES {
                self.enabled = false;
                true
            } else {
                false
            }
        }
    }
}

/// Three timeouts in a row end pacing, from whatever state a success left.
pub proof fn three_timeouts_end_pacing(p: Pacing)
    requires
        p.wf(),
        p.enabled,
    ensures
        ({
            let fresh = p.after(true);
            &&& fresh.enabled
            &&& fresh.after(false).enabled
            &&& fresh.after(false).after(false).enabled
            &&& !fresh.after(false).after(false).after(false).enabled
        }),
{
}

// ---------------------------------------------------------------------------
// Benchmark description
// ---------------------------------------------------------------------------

/// A JSON object without its closing braces.
pub open spec fn opened(s: Seq<char>) -> Seq<char>
    decreases s.len(),
{
    if s.len() > 0 && s.last() == '}' {
        opened(s.drop_last())
    } else {
        s
    }
}

fn open_object(s: &str) -> (r: String)
    ensures
        r@ == opened(s@),
{
    let chars: Vec<char> = chars_of(s);
    let mut n: usize = chars.len();
    assert(chars@.take(n as int) =~= chars@);
    while n > 0 && chars[n - 1] == '}'
        invariant
            n <= chars.len(),
            opened(chars@) == opened(chars@.take(n as int)),
        decreases n,
    {
        assert(chars@.take(n as int).drop_last() =~= chars@.take(n - 1));
        assert(chars@.take(n as int).last() == '}');
        n -= 1;
    }
    assert(opened(chars@.take(n as int)) == chars@.take(n as int)) by {
        if n > 0 {
            assert(chars@.take(n as int).last() == chars@[n - 1]);
        }
    }
    assert(s@.subrange(0, n as int) =~= s@.take(n as int));
    s.substring_char(0, n).to_owned()
}

/// The device that a benchmark runs on.
#[derive(Clone, Copy, Debug, PartialEq, Eq, Structural)]
pub struct DeviceFacts {
    pub burst: u32,
    pub rt_shadows: bool,
    pub queue_count: u32,
    pub display_timing: bool,
    pub vendor_id: u32,
    pub device_id: u32,
    pub driver_version: u32,
}

/// Description of the device, as a JSON object.
pub open spec fn device_json(quality: Seq<char>, d: DeviceFacts) -> Seq<char> {
    "{\"quality\":\""@ + quality + "\",\"burst\":"@ + text::decimal(d.burst as nat)
        + ",\"rt_shadows\":"@ + text::truth(d.rt_shadows) + ",\"queue_count\":"@ + text::decimal(
        d.queue_count as nat,
    ) + ",\"display_timing_supported\":"@ + text::truth(d.display_timing)
        + ",\"scene_rendered\":true,\"gpu_vendor_id\":"@ + text::decimal(d.vendor_id as nat)
        + ",\"gpu_device_id\":"@ + text::decimal(d.device_id as nat) + ",\"driver_version\":"@
        + text::decimal(d.driver_version as nat) + "}"@
}

/// Description of the device, as a JSON object.
pub fn describe_device(quality: &str, d: &DeviceFacts) -> (r: String)
    ensures
        r@ == device_json(quality@, *d),
{
    let mut out: String = "{\"quality\":\"".to_owned();
    out.append(quality);
    out.append("\",\"burst\":");
    push_decimal(&mut out, d.burst as u128);
    out.append(",\"rt_shadows\":");
    push_truth(&mut out, d.rt_shadows);
    out.append(",\"queue_count\":");
    push_decimal(&mut out, d.queue_count as u128);
    out.append(",\"display_timing_supported\":");
    push_truth(&mut out, d.display_timing);
    out.append(",\"scene_rendered\":true,\"gpu_vendor_id\":");
    push_decimal(&mut out, d.vendor_id as u128);
    out.append(",\"gpu_device_id\":");
    push_decimal(&mut out, d.device_id as u128);
    out.append(",\"driver_version\":");
    push_decimal(&mut out, d.driver_version as u128);
    out.append("}");
    out
}

/// Name of a present mode.
pub open spec fn mode_name(mode: PresentMode) -> Seq<char> {
    match mode {
        PresentMode::Immediate => "IMMEDIATE"@,
        PresentMode::Mailbox => "MAILBOX"@,
        PresentMode::Fifo => "FIFO"@,
        PresentMode::Other => "OTHER"@,
    }
}

/// What was drawn, and how it was presented.
#[derive(Clone, Copy, Debug, PartialEq, Eq, Structural)]
pub struct DrawFacts {
    pub output: Extent,
    pub scene: Extent,
    pub present_mode: PresentMode,
}

/// A description with what was drawn added to it.
pub open spec fn drawn_json(metadata: Seq<char>, d: DrawFacts) -> Seq<char> {
    opened(metadata) + ",\"width\":"@ + text::decimal(d.output.width as nat) + ",\"height\":"@
        + text::decimal(d.output.height as nat) + ",\"scene_width\":"@ + text::decimal(
        d.scene.width as nat,
    ) + ",\"scene_height\":"@ + text::decimal(d.scene.height as nat) + ",\"present_mode\":\""@
        + mode_name(d.present_mode) + "\"}"@
}

/// Add what was drawn to a description.
pub fn describe_draw(metadata: &str, d: &DrawFacts) -> (r: String)
    ensures
        r@ == drawn_json(metadata@, *d),
{
    let mut out: String = open_object(metadata);
    out.append(",\"width\":");
    push_decimal(&mut out, d.output.width as u128);
    out.append(",\"height\":");
    push_decimal(&mut out, d.output.height as u128);
    out.append(",\"scene_width\":");
    push_decimal(&mut out, d.scene.width as u128);
    out.append(",\"scene_height\":");
    push_decimal(&mut out, d.scene.height as u128);
    out.append(",\"present_mode\":\"");
    match d.present_mode {
        PresentMode::Immediate => {
            out.append("IMMEDIATE");
        },
        PresentMode::Mailbox => {
            out.append("MAILBOX");
        },
        PresentMode::Fifo => {
            out.append("FIFO");
        },
        PresentMode::Other => {
            out.append("OTHER");
        },
    }
    out.append("\"}");
    out
}

/// Settings that a benchmark ran under.
#[derive(Clone, Copy, Debug, PartialEq, Eq, Structural)]
pub struct RunFacts {
    pub ui: u32,
    pub audio_requested: bool,
    pub force_boost: bool,
    pub force_bank: bool,
    pub frozen: bool,
}

/// A description with the settings added to it. Wind and pitch are numbers in
/// text, and the pitch may be absent.
pub open spec fn run_json(
    metadata: Seq<char>,
    d: RunFacts,
    wind: Seq<char>,
    pitch: Option<Seq<char>>,
) -> Seq<char> {
    opened(metadata) + ",\"hud_flags\":"@ + text::decimal((d.ui & hud::SHOWN) as nat)
        + ",\"audio_requested\":"@ + text::truth(d.audio_requested && d.ui & hud::AUDIO != 0)
        + ",\"wind\":"@ + wind + ",\"force_boost\":"@ + text::truth(d.force_boost) + ",\"force_bank\":"@
        + text::truth(d.force_bank) + ",\"force_pitch\":"@ + (match pitch {
        Some(pitch) => pitch,
        None => "null"@,
    }) + ",\"frozen\":"@ + text::truth(d.frozen) + "}"@
}

/// Add the settings of a run to a description.
pub fn describe_run(metadata: &str, d: &RunFacts, wind: &str, pitch: Option<&str>) -> (r: String)
    ensures
        r@ == run_json(
            metadata@,
            *d,
            wind@,
            match pitch {
                Some(pitch) => Some(pitch@),
                None => None,
            },
        ),
{
    let mut out: String = open_object(metadata);
    out.append(",\"hud_flags\":");
    push_decimal(&mut out, (d.ui & hud::SHOWN) as u128);
    out.append(",\"audio_requested\":");
    push_truth(&mut out, d.audio_requested && d.ui & hud::AUDIO != 0);
    out.append(",\"wind\":");
    out.append(wind);
    out.append(",\"force_boost\":");
    push_truth(&mut out, d.force_boost);
    out.append(",\"force_bank\":");
    push_truth(&mut out, d.force_bank);
    out.append(",\"force_pitch\":");
    match pitch {
        Some(pitch) => {
            out.append(pitch);
        },
        None => {
            out.append("null");
        },
    }
    out.append(",\"frozen\":");
    push_truth(&mut out, d.frozen);
    out.append("}");
    out
}

// ---------------------------------------------------------------------------
// What a frame keeps
// ---------------------------------------------------------------------------

/// What does not move is not drawn as moving. A frame that is not frozen steps
/// everything; one that is, nothing but what only the pose holds. A pause stops
/// the camera and the sound, and draws the pose as it is; the sound is also
/// stopped by its own switch, and nothing else is.
pub proof fn still_frames_stay_still(ui: u32, freeze: Freeze)
    ensures
        ({
            let p = planned(ui, freeze);
            &&& p.paused <==> ui & hud::PAUSED != 0
            &&& p.reset <==> ui & hud::RESET != 0
            &&& p.step_pose <==> !freeze.freeze_pose
            &&& p.step_effects <==> !freeze.frozen
            &&& p.interpolate ==> p.step_pose && !p.paused
            &&& p.camera_moves ==> p.step_effects && !p.paused
            &&& p.audible ==> p.camera_moves && ui & hud::AUDIO != 0
            &&& !p.paused && !freeze.frozen ==> p.camera_moves && (p.audible <==> ui & hud::AUDIO
                != 0)
            &&& !p.paused && !freeze.freeze_pose ==> p.interpolate
        }),
{
}

/// A product with this factor can be told from the other one.
proof fn factor_tells(a: u64, b: u64)
    requires
        a.wrapping_mul(1099511628211) == b.wrapping_mul(1099511628211),
    ensures
        a == b,
{
    let m = 0x1_0000_0000_0000_0000int;
    let (inverse, k) = (14886173955864302971int, 887285111055int);
    let c = 1099511628211int;
    assert(c * inverse == 1 + k * m);
    factor_undone(a as int, c, inverse, k);
    factor_undone(b as int, c, inverse, k);
}

proof fn factor_undone(a: int, c: int, inverse: int, k: int)
    requires
        0 <= a < 0x1_0000_0000_0000_0000,
        c * inverse == 1 + k * 0x1_0000_0000_0000_0000,
    ensures
        (((a * c) % 0x1_0000_0000_0000_0000) * inverse) % 0x1_0000_0000_0000_0000 == a,
{
    let m = 0x1_0000_0000_0000_0000int;
    vstd::arithmetic::div_mod::lemma_mul_mod_noop_left(a * c, inverse, m);
    assert((a * c) * inverse == a * (c * inverse)) by (nonlinear_arith);
    assert(a * (1 + k * m) == m * (a * k) + a) by (nonlinear_arith);
    vstd::arithmetic::div_mod::lemma_mod_multiples_vanish(a * k, a, m);
    vstd::arithmetic::div_mod::lemma_small_mod(a as nat, m as nat);
}

/// Equal sums that share one term share the other.
proof fn sum_tells(p: u64, q: u64, a: u64, b: u64)
    requires
        p.wrapping_add(a) == q.wrapping_add(b),
    ensures
        p == q <==> a == b,
{
}

/// A change of one byte always shows in the fingerprint: two sources of one
/// length that share their fingerprint and differ in one place at most are the
/// same.
pub proof fn fingerprints_show_a_change(a: Seq<u8>, b: Seq<u8>, at: int)
    requires
        a.len() == b.len(),
        0 <= at < a.len(),
        forall|i: int| 0 <= i < a.len() && i != at ==> #[trigger] a[i] == b[i],
        fingerprint(a) == fingerprint(b),
    ensures
        a == b,
    decreases a.len(),
{
    let (x, y) = (a.drop_last(), b.drop_last());
    let (p, q) = (
        fingerprint(x).wrapping_mul(1099511628211),
        fingerprint(y).wrapping_mul(1099511628211),
    );
    sum_tells(p, q, a.last() as u64, b.last() as u64);
    if at == a.len() - 1 {
        assert(x =~= y);
    } else {
        assert(a.last() == b.last());
        factor_tells(fingerprint(x), fingerprint(y));
        fingerprints_show_a_change(x, y, at);
    }
    assert(a =~= x.push(a.last()) && b =~= y.push(b.last()));
}

/// Each draw is counted once: a present with its passes, or a skipped frame. A
/// swapchain that has to be recreated counts as nothing.
pub proof fn draws_are_counted_once(s: LoopStats, result: DrawResult)
    requires
        s.frames < u32::MAX && s.presents < u32::MAX,
        s.skipped < u64::MAX && s.presented_total < u64::MAX,
        result matches DrawResult::Presented(rendered) ==> s.frames + rendered <= u32::MAX,
    ensures
        ({
            let t = s.after(result);
            &&& t.presents - s.presents == t.presented_total - s.presented_total
            &&& (t.presents - s.presents) + (t.skipped - s.skipped) == if result is Rebuild {
                0int
            } else {
                1
            }
            &&& result is Presented <==> t.presents == s.presents + 1
            &&& t.frames - s.frames == match result {
                DrawResult::Presented(rendered) => rendered as int,
                _ => 0,
            }
        }),
{
}

/// A wait that ends in time clears the strikes and keeps pacing as it was; one
/// that does not adds a strike. Pacing never comes back by itself.
pub proof fn strikes_are_counted(p: Pacing, displayed: bool)
    requires
        p.wf(),
        p.enabled,
    ensures
        displayed ==> p.after(displayed) == (Pacing { enabled: true, strikes: 0 }),
        !displayed ==> p.after(displayed).strikes == p.strikes + 1,
        !displayed ==> (p.after(displayed).enabled <==> p.strikes < 2),
{
}

/// Opening an object takes away closing braces at its end and nothing else.
pub proof fn opening_takes_braces(s: Seq<char>)
    ensures
        opened(s).len() <= s.len(),
        opened(s) == s.take(opened(s).len() as int),
        forall|i: int| opened(s).len() <= i < s.len() ==> #[trigger] s[i] == '}',
        opened(s).len() > 0 ==> opened(s).last() != '}',
    decreases s.len(),
{
    if s.len() > 0 && s.last() == '}' {
        let t = s.drop_last();
        opening_takes_braces(t);
        assert(t.take(opened(t).len() as int) =~= s.take(opened(t).len() as int));
        assert forall|i: int| opened(s).len() <= i < s.len() implies #[trigger] s[i] == '}' by {
            if i < t.len() {
                assert(s[i] == t[i]);
            }
        }
    } else {
        assert(s.take(s.len() as int) =~= s);
    }
}

/// A mode is told by a name of its own, in capitals.
pub proof fn modes_have_their_names(a: PresentMode, b: PresentMode)
    ensures
        mode_name(a) == mode_name(b) ==> a == b,
        a == PresentMode::Immediate <==> mode_name(a)[0] == 'I',
        a == PresentMode::Mailbox <==> mode_name(a)[0] == 'M',
        a == PresentMode::Fifo <==> mode_name(a)[0] == 'F',
{
    reveal_strlit("IMMEDIATE");
    reveal_strlit("MAILBOX");
    reveal_strlit("FIFO");
    reveal_strlit("OTHER");
    assert("OTHER"@[0] == 'O');
    assert("IMMEDIATE"@[0] == 'I' && "MAILBOX"@[0] == 'M' && "FIFO"@[0] == 'F');
}

/// What was known before stays at the front when a description grows, and the
/// description stays an object: it ends with a brace. The sound counts as asked
/// for only while it is switched on, and a pitch that is absent is told as such.
pub proof fn descriptions_grow(
    metadata: Seq<char>,
    d: DrawFacts,
    r: RunFacts,
    wind: Seq<char>,
    pitch: Option<Seq<char>>,
)
    ensures
        opened(metadata).is_prefix_of(drawn_json(metadata, d)),
        opened(metadata).is_prefix_of(run_json(metadata, r, wind, pitch)),
        drawn_json(metadata, d).last() == '}',
        run_json(metadata, r, wind, pitch).last() == '}',
        r.ui & hud::AUDIO == 0 ==> run_json(metadata, r, wind, pitch) == run_json(
            metadata,
            RunFacts { audio_requested: false, ..r },
            wind,
            pitch,
        ),
        run_json(metadata, r, wind, None) == run_json(metadata, r, wind, Some("null"@)),
{
    reveal_strlit("}");
    reveal_strlit("\"}");
}

/// The description of a device tells each fact under its name.
pub proof fn devices_are_told_by_name(quality: Seq<char>, d: DeviceFacts)
    ensures
        text::says(
            device_json(quality, d),
            "{\"quality\":\""@ + quality + "\",\"burst\":"@,
        ),
        text::says(
            device_json(quality, d),
            "\",\"burst\":"@ + text::decimal(d.burst as nat) + ",\"rt_shadows\":"@,
        ),
        text::says(
            device_json(quality, d),
            ",\"rt_shadows\":"@ + text::truth(d.rt_shadows) + ",\"queue_count\":"@,
        ),
        text::says(
            device_json(quality, d),
            ",\"queue_count\":"@ + text::decimal(d.queue_count as nat) + ",\"display_timing_supported\":"@,
        ),
        text::says(
            device_json(quality, d),
            ",\"display_timing_supported\":"@ + text::truth(d.display_timing) + ",\"scene_rendered\":true,\"gpu_vendor_id\":"@,
        ),
        text::says(
            device_json(quality, d),
            ",\"scene_rendered\":true,\"gpu_vendor_id\":"@ + text::decimal(d.vendor_id as nat) + ",\"gpu_device_id\":"@,
        ),
        text::says(
            device_json(quality, d),
            ",\"gpu_device_id\":"@ + text::decimal(d.device_id as nat) + ",\"driver_version\":"@,
        ),
        text::says(
            device_json(quality, d),
            ",\"driver_version\":"@ + text::decimal(d.driver_version as nat) + "}"@,
        ),
{
    let w0 = "{\"quality\":\""@;
    let w1 = w0 + quality;
    let w2 = w1 + "\",\"burst\":"@;
    let w3 = w2 + text::decimal(d.burst as nat);
    let w4 = w3 + ",\"rt_shadows\":"@;
    let w5 = w4 + text::truth(d.rt_shadows);
    let w6 = w5 + ",\"queue_count\":"@;
    let w7 = w6 + text::decimal(d.queue_count as nat);
    let w8 = w7 + ",\"display_timing_supported\":"@;
    let w9 = w8 + text::truth(d.display_timing);
    let w10 = w9 + ",\"scene_rendered\":true,\"gpu_vendor_id\":"@;
    let w11 = w10 + text::decimal(d.vendor_id as nat);
    let w12 = w11 + ",\"gpu_device_id\":"@;
    let w13 = w12 + text::decimal(d.device_id as nat);
    let w14 = w13 + ",\"driver_version\":"@;
    let w15 = w14 + text::decimal(d.driver_version as nat);
    let w16 = w15 + "}"@;
    assert(w16 == device_json(quality, d));
    text::starts_are_said(w16, w16, "{\"quality\":\""@);
    text::starts_start_with_their_starts(w16, w15, "}"@);
    text::starts_start_with_their_starts(w16, w14, text::decimal(d.driver_version as nat));
    text::starts_start_with_their_starts(w16, w13, ",\"driver_version\":"@);
    text::starts_start_with_their_starts(w16, w12, text::decimal(d.device_id as nat));
    text::starts_start_with_their_starts(w16, w11, ",\"gpu_device_id\":"@);
    text::starts_start_with_their_starts(w16, w10, text::decimal(d.vendor_id as nat));
    text::starts_start_with_their_starts(w16, w9, ",\"scene_rendered\":true,\"gpu_vendor_id\":"@);
    text::starts_start_with_their_starts(w16, w8, text::truth(d.display_timing));
    text::starts_start_with_their_starts(w16, w7, ",\"display_timing_supported\":"@);
    text::starts_start_with_their_starts(w16, w6, text::decimal(d.queue_count as nat));
    text::starts_start_with_their_starts(w16, w5, ",\"queue_count\":"@);
    text::starts_start_with_their_starts(w16, w4, text::truth(d.rt_shadows));
    text::starts_start_with_their_starts(w16, w3, ",\"rt_shadows\":"@);
    text::starts_start_with_their_starts(w16, w2, text::decimal(d.burst as nat));
    text::starts_start_with_their_starts(w16, w1, "\",\"burst\":"@);
    text::starts_start_with_their_starts(w16, w0, quality);
    text::ends_are_said(Seq::empty(), "{\"quality\":\""@, quality, "\",\"burst\":"@);
    text::starts_are_said(w16, w2, "{\"quality\":\""@ + quality + "\",\"burst\":"@);
    text::ends_are_said(w1, "\",\"burst\":"@, text::decimal(d.burst as nat), ",\"rt_shadows\":"@);
    text::starts_are_said(
        w16,
        w4,
        "\",\"burst\":"@ + text::decimal(d.burst as nat) + ",\"rt_shadows\":"@,
    );
    text::ends_are_said(w3, ",\"rt_shadows\":"@, text::truth(d.rt_shadows), ",\"queue_count\":"@);
    text::starts_are_said(
        w16,
        w6,
        ",\"rt_shadows\":"@ + text::truth(d.rt_shadows) + ",\"queue_count\":"@,
    );
    text::ends_are_said(
        w5,
        ",\"queue_count\":"@,
        text::decimal(d.queue_count as nat),
        ",\"display_timing_supported\":"@,
    );
    text::starts_are_said(
        w16,
        w8,
        ",\"queue_count\":"@ + text::decimal(d.queue_count as nat) + ",\"display_timing_supported\":"@,
    );
    text::ends_are_said(
        w7,
        ",\"display_timing_supported\":"@,
        text::truth(d.display_timing),
        ",\"scene_rendered\":true,\"gpu_vendor_id\":"@,
    );
    text::starts_are_said(
        w16,
        w10,
        ",\"display_timing_supported\":"@ + text::truth(d.display_timing) + ",\"scene_rendered\":true,\"gpu_vendor_id\":"@,
    );
    text::ends_are_said(
        w9,
        ",\"scene_rendered\":true,\"gpu_vendor_id\":"@,
        text::decimal(d.vendor_id as nat),
        ",\"gpu_device_id\":"@,
    );
    text::starts_are_said(
        w16,
        w12,
        ",\"scene_rendered\":true,\"gpu_vendor_id\":"@ + text::decimal(d.vendor_id as nat) + ",\"gpu_device_id\":"@,
    );
    text::ends_are_said(
        w11,
        ",\"gpu_device_id\":"@,
        text::decimal(d.device_id as nat),
        ",\"driver_version\":"@,
    );
    text::starts_are_said(
        w16,
        w14,
        ",\"gpu_device_id\":"@ + text::decimal(d.device_id as nat) + ",\"driver_version\":"@,
    );
    text::ends_are_said(w13, ",\"driver_version\":"@, text::decimal(d.driver_version as nat), "}"@);
    text::starts_are_said(
        w16,
        w16,
        ",\"driver_version\":"@ + text::decimal(d.driver_version as nat) + "}"@,
    );
}

/// What was drawn is told by name: the size of the picture, of the scene behind
/// it, and the way it was presented.
pub proof fn drawings_are_told_by_name(metadata: Seq<char>, d: DrawFacts)
    ensures
        text::says(
            drawn_json(metadata, d),
            ",\"width\":"@ + text::decimal(d.output.width as nat) + ",\"height\":"@,
        ),
        text::says(
            drawn_json(metadata, d),
            ",\"height\":"@ + text::decimal(d.output.height as nat) + ",\"scene_width\":"@,
        ),
        text::says(
            drawn_json(metadata, d),
            ",\"scene_width\":"@ + text::decimal(d.scene.width as nat) + ",\"scene_height\":"@,
        ),
        text::says(
            drawn_json(metadata, d),
            ",\"scene_height\":"@ + text::decimal(d.scene.height as nat) + ",\"present_mode\":\""@,
        ),
        text::says(
            drawn_json(metadata, d),
            ",\"present_mode\":\""@ + mode_name(d.present_mode) + "\"}"@,
        ),
{
    let w0 = opened(metadata);
    let w1 = w0 + ",\"width\":"@;
    let w2 = w1 + text::decimal(d.output.width as nat);
    let w3 = w2 + ",\"height\":"@;
    let w4 = w3 + text::decimal(d.output.height as nat);
    let w5 = w4 + ",\"scene_width\":"@;
    let w6 = w5 + text::decimal(d.scene.width as nat);
    let w7 = w6 + ",\"scene_height\":"@;
    let w8 = w7 + text::decimal(d.scene.height as nat);
    let w9 = w8 + ",\"present_mode\":\""@;
    let w10 = w9 + mode_name(d.present_mode);
    let w11 = w10 + "\"}"@;
    assert(w11 == drawn_json(metadata, d));
    text::starts_are_said(w11, w11, opened(metadata));
    text::starts_start_with_their_starts(w11, w10, "\"}"@);
    text::starts_start_with_their_starts(w11, w9, mode_name(d.present_mode));
    text::starts_start_with_their_starts(w11, w8, ",\"present_mode\":\""@);
    text::starts_start_with_their_starts(w11, w7, text::decimal(d.scene.height as nat));
    text::starts_start_with_their_starts(w11, w6, ",\"scene_height\":"@);
    text::starts_start_with_their_starts(w11, w5, text::decimal(d.scene.width as nat));
    text::starts_start_with_their_starts(w11, w4, ",\"scene_width\":"@);
    text::starts_start_with_their_starts(w11, w3, text::decimal(d.output.height as nat));
    text::starts_start_with_their_starts(w11, w2, ",\"height\":"@);
    text::starts_start_with_their_starts(w11, w1, text::decimal(d.output.width as nat));
    text::starts_start_with_their_starts(w11, w0, ",\"width\":"@);
    text::ends_are_said(w0, ",\"width\":"@, text::decimal(d.output.width as nat), ",\"height\":"@);
    text::starts_are_said(
        w11,
        w3,
        ",\"width\":"@ + text::decimal(d.output.width as nat) + ",\"height\":"@,
    );
    text::ends_are_said(
        w2,
        ",\"height\":"@,
        text::decimal(d.output.height as nat),
        ",\"scene_width\":"@,
    );
    text::starts_are_said(
        w11,
        w5,
        ",\"height\":"@ + text::decimal(d.output.height as nat) + ",\"scene_width\":"@,
    );
    text::ends_are_said(
        w4,
        ",\"scene_width\":"@,
        text::decimal(d.scene.width as nat),
        ",\"scene_height\":"@,
    );
    text::starts_are_said(
        w11,
        w7,
        ",\"scene_width\":"@ + text::decimal(d.scene.width as nat) + ",\"scene_height\":"@,
    );
    text::ends_are_said(
        w6,
        ",\"scene_height\":"@,
        text::decimal(d.scene.height as nat),
        ",\"present_mode\":\""@,
    );
    text::starts_are_said(
        w11,
        w9,
        ",\"scene_height\":"@ + text::decimal(d.scene.height as nat) + ",\"present_mode\":\""@,
    );
    text::ends_are_said(w8, ",\"present_mode\":\""@, mode_name(d.present_mode), "\"}"@);
    text::starts_are_said(w11, w11, ",\"present_mode\":\""@ + mode_name(d.present_mode) + "\"}"@);
}

/// The settings of a run are told by name: the display flags that show, whether
/// sound is to be heard, and what was forced.
pub proof fn runs_are_told_by_name(
    metadata: Seq<char>,
    d: RunFacts,
    wind: Seq<char>,
    pitch: Seq<char>,
)
    ensures
        text::says(
            run_json(metadata, d, wind, Some(pitch)),
            ",\"hud_flags\":"@ + text::decimal((d.ui & 15) as nat) + ",\"audio_requested\":"@,
        ),
        text::says(
            run_json(metadata, d, wind, Some(pitch)),
            ",\"audio_requested\":"@ + text::truth(d.audio_requested && d.ui & 4 != 0) + ",\"wind\":"@,
        ),
        text::says(
            run_json(metadata, d, wind, Some(pitch)),
            ",\"wind\":"@ + wind + ",\"force_boost\":"@,
        ),
        text::says(
            run_json(metadata, d, wind, Some(pitch)),
            ",\"force_boost\":"@ + text::truth(d.force_boost) + ",\"force_bank\":"@,
        ),
        text::says(
            run_json(metadata, d, wind, Some(pitch)),
            ",\"force_bank\":"@ + text::truth(d.force_bank) + ",\"force_pitch\":"@,
        ),
        text::says(
            run_json(metadata, d, wind, Some(pitch)),
            ",\"force_pitch\":"@ + pitch + ",\"frozen\":"@,
        ),
        text::says(
            run_json(metadata, d, wind, Some(pitch)),
            ",\"frozen\":"@ + text::truth(d.frozen) + "}"@,
        ),
{
    let w0 = opened(metadata);
    let w1 = w0 + ",\"hud_flags\":"@;
    let w2 = w1 + text::decimal((d.ui & 15) as nat);
    let w3 = w2 + ",\"audio_requested\":"@;
    let w4 = w3 + text::truth(d.audio_requested && d.ui & 4 != 0);
    let w5 = w4 + ",\"wind\":"@;
    let w6 = w5 + wind;
    let w7 = w6 + ",\"force_boost\":"@;
    let w8 = w7 + text::truth(d.force_boost);
    let w9 = w8 + ",\"force_bank\":"@;
    let w10 = w9 + text::truth(d.force_bank);
    let w11 = w10 + ",\"force_pitch\":"@;
    let w12 = w11 + pitch;
    let w13 = w12 + ",\"frozen\":"@;
    let w14 = w13 + text::truth(d.frozen);
    let w15 = w14 + "}"@;
    assert(w15 == run_json(metadata, d, wind, Some(pitch)));
    text::starts_are_said(w15, w15, opened(metadata));
    text::starts_start_with_their_starts(w15, w14, "}"@);
    text::starts_start_with_their_starts(w15, w13, text::truth(d.frozen));
    text::starts_start_with_their_starts(w15, w12, ",\"frozen\":"@);
    text::starts_start_with_their_starts(w15, w11, pitch);
    text::starts_start_with_their_starts(w15, w10, ",\"force_pitch\":"@);
    text::starts_start_with_their_starts(w15, w9, text::truth(d.force_bank));
    text::starts_start_with_their_starts(w15, w8, ",\"force_bank\":"@);
    text::starts_start_with_their_starts(w15, w7, text::truth(d.force_boost));
    text::starts_start_with_their_starts(w15, w6, ",\"force_boost\":"@);
    text::starts_start_with_their_starts(w15, w5, wind);
    text::starts_start_with_their_starts(w15, w4, ",\"wind\":"@);
    text::starts_start_with_their_starts(w15, w3, text::truth(d.audio_requested && d.ui & 4 != 0));
    text::starts_start_with_their_starts(w15, w2, ",\"audio_requested\":"@);
    text::starts_start_with_their_starts(w15, w1, text::decimal((d.ui & 15) as nat));
    text::starts_start_with_their_starts(w15, w0, ",\"hud_flags\":"@);
    text::ends_are_said(
        w0,
        ",\"hud_flags\":"@,
        text::decimal((d.ui & 15) as nat),
        ",\"audio_requested\":"@,
    );
    text::starts_are_said(
        w15,
        w3,
        ",\"hud_flags\":"@ + text::decimal((d.ui & 15) as nat) + ",\"audio_requested\":"@,
    );
    text::ends_are_said(
        w2,
        ",\"audio_requested\":"@,
        text::truth(d.audio_requested && d.ui & 4 != 0),
        ",\"wind\":"@,
    );
    text::starts_are_said(
        w15,
        w5,
        ",\"audio_requested\":"@ + text::truth(d.audio_requested && d.ui & 4 != 0) + ",\"wind\":"@,
    );
    text::ends_are_said(w4, ",\"wind\":"@, wind, ",\"force_boost\":"@);
    text::starts_are_said(w15, w7, ",\"wind\":"@ + wind + ",\"force_boost\":"@);
    text::ends_are_said(w6, ",\"force_boost\":"@, text::truth(d.force_boost), ",\"force_bank\":"@);
    text::starts_are_said(
        w15,
        w9,
        ",\"force_boost\":"@ + text::truth(d.force_boost) + ",\"force_bank\":"@,
    );
    text::ends_are_said(w8, ",\"force_bank\":"@, text::truth(d.force_bank), ",\"force_pitch\":"@);
    text::starts_are_said(
        w15,
        w11,
        ",\"force_bank\":"@ + text::truth(d.force_bank) + ",\"force_pitch\":"@,
    );
    text::ends_are_said(w10, ",\"force_pitch\":"@, pitch, ",\"frozen\":"@);
    text::starts_are_said(w15, w13, ",\"force_pitch\":"@ + pitch + ",\"frozen\":"@);
    text::ends_are_said(w12, ",\"frozen\":"@, text::truth(d.frozen), "}"@);
    text::starts_are_said(w15, w15, ",\"frozen\":"@ + text::truth(d.frozen) + "}"@);
}

} // verus!
