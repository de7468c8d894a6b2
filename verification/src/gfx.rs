//! Choices made when the graphics device is set up, and the timing figures
//! gathered while it draws.
use crate::flags::Toggle;
use crate::text;
use crate::text::{parse_u64, same_text};
use vstd::prelude::*;
use vstd::string::*;

verus! {

/// Vendor id of the GPU that the renderer targets.
pub const NVIDIA_VENDOR: u32 = 0x10DE;

/// Attachments at or above this size get an allocation of their own, so that
/// the per-frame targets sit outside the suballocation heap.
pub const DEDICATE_ABOVE: u64 = 16_777_216;

/// Passes per present where nothing else is asked for.
pub const RENDER_BURST_DEFAULT: u32 = 1;

/// Swapchain images asked for.
pub const SWAPCHAIN_IMAGES: u32 = 8;

/// Presents between GPU readbacks in play.
pub const READBACK_EVERY_DEFAULT: u64 = 16;

/// GPU time above which a sampled frame is logged as a spike.
pub const SPIKE_US_DEFAULT: u64 = 9000;

/// First word of every SPIR-V module.
pub const SPIRV_MAGIC: u32 = 0x0723_0203;

// ---------------------------------------------------------------------------
// Stage timings
// ---------------------------------------------------------------------------

/// Passes that the GPU timestamps tell apart.
pub const GPU_PASSES: usize = 10;

/// Sums of the time spent in each stage of a frame.
#[derive(Debug)]
pub struct StageStats {
    pub acquire_us: u64,
    pub fence_wait_us: u64,
    pub submit_us: u64,
    pub present_us: u64,
    pub sim_ns: u64,
    pub camera_ns: u64,
    pub fx_ns: u64,
    pub gpu_us: u64,
    pub gpu_pass_us: [u64; 10],
    pub gpu_samples: u64,
    pub presents: u64,
}

/// Averages per present.
#[derive(Clone, Copy, Debug, PartialEq, Eq, Structural)]
pub struct StageReport {
    pub acquire_us: u64,
    pub fence_wait_us: u64,
    pub submit_us: u64,
    pub present_us: u64,
    pub sim_ns: u64,
    pub camera_ns: u64,
    pub fx_ns: u64,
    pub gpu_us: u64,
}

/// `sum / n`, where nothing counts as one.
pub open spec fn average(sum: u64, n: u64) -> u64 {
    sum / if n > 1 {
        n
    } else {
        1
    }
}

fn average_of(sum: u64, n: u64) -> (r: u64)
    ensures
        r == average(sum, n),
{
    if n > 1 {
        sum / n
    } else {
        sum / 1
    }
}

impl StageStats {
    /// Nothing measured.
    pub fn new() -> (r: StageStats)
        ensures
            r.acquire_us == 0 && r.fence_wait_us == 0 && r.submit_us == 0 && r.present_us == 0,
            r.sim_ns == 0 && r.camera_ns == 0 && r.fx_ns == 0,
            r.gpu_us == 0 && r.gpu_samples == 0 && r.presents == 0,
            forall|i: int| 0 <= i < 10 ==> #[trigger] r.gpu_pass_us[i] == 0,
    {
        StageStats {
            acquire_us: 0,
            fence_wait_us: 0,
            submit_us: 0,
            present_us: 0,
            sim_ns: 0,
            camera_ns: 0,
            fx_ns: 0,
            gpu_us: 0,
            gpu_pass_us: [0, 0, 0, 0, 0, 0, 0, 0, 0, 0],
            gpu_samples: 0,
            presents: 0,
        }
    }

    /// Add the stages of one present.
    pub fn add_batch(&mut self, acquire: u64, fence_wait: u64, submit: u64, present: u64)
        requires
            old(self).acquire_us + acquire <= u64::MAX,
            old(self).fence_wait_us + fence_wait <= u64::MAX,
            old(self).submit_us + submit <= u64::MAX,
            old(self).present_us + present <= u64::MAX,
            old(self).presents < u64::MAX,
        ensures
            *final(self) == (StageStats {
                acquire_us: (old(self).acquire_us + acquire) as u64,
                fence_wait_us: (old(self).fence_wait_us + fence_wait) as u64,
                submit_us: (old(self).submit_us + submit) as u64,
                present_us: (old(self).present_us + present) as u64,
                presents: (old(self).presents + 1) as u64,
                ..*old(self)
            }),
    {
        self.acquire_us = self.acquire_us + acquire;
        self.fence_wait_us = self.fence_wait_us + fence_wait;
        self.submit_us = self.submit_us + submit;
        self.present_us = self.present_us + present;
        self.presents = self.presents + 1;
    }

    /// Add the time of the simulation and of the camera.
    pub fn add_cpu(&mut self, sim: u64, camera: u64)
        requires
            old(self).sim_ns + sim <= u64::MAX,
            old(self).camera_ns + camera <= u64::MAX,
        ensures
            *final(self) == (StageStats {
                sim_ns: (old(self).sim_ns + sim) as u64,
                camera_ns: (old(self).camera_ns + camera) as u64,
                ..*old(self)
            }),
    {
        self.sim_ns = self.sim_ns + sim;
        self.camera_ns = self.camera_ns + camera;
    }

    /// Add the time of filling effect buffers.
    pub fn add_fx(&mut self, fx: u64)
        requires
            old(self).fx_ns + fx <= u64::MAX,
        ensures
            *final(self) == (StageStats { fx_ns: (old(self).fx_ns + fx) as u64, ..*old(self) }),
    {
        self.fx_ns = self.fx_ns + fx;
    }

    /// Add one sampled GPU frame.
    pub fn add_gpu(&mut self, gpu_us: u64)
        requires
            old(self).gpu_us + gpu_us <= u64::MAX,
            old(self).gpu_samples < u64::MAX,
        ensures
            *final(self) == (StageStats {
                gpu_us: (old(self).gpu_us + gpu_us) as u64,
                gpu_samples: (old(self).gpu_samples + 1) as u64,
                ..*old(self)
            }),
    {
        self.gpu_us = self.gpu_us + gpu_us;
        self.gpu_samples = self.gpu_samples + 1;
    }

    /// Add the time of one pass of a sampled GPU frame. Passes that are not
    /// told apart are ignored.
    pub fn add_gpu_pass(&mut self, pass: usize, us: u64)
        requires
            pass < GPU_PASSES ==> old(self).gpu_pass_us[pass as int] + us <= u64::MAX,
        ensures
            forall|i: int|
                0 <= i < GPU_PASSES ==> #[trigger] final(self).gpu_pass_us[i] == old(
                    self,
                ).gpu_pass_us[i] + if i == pass {
                    us as int
                } else {
                    0
                },
            *final(self) == (StageStats {
                gpu_pass_us: final(self).gpu_pass_us,
                ..*old(self)
            }),
    {
        if pass < GPU_PASSES {
            self.gpu_pass_us[pass] = self.gpu_pass_us[pass] + us;
        }
    }

    /// Average time of each pass over the sampled frames.
    pub fn gpu_pass_avg(&self) -> (r: [u64; 10])
        ensures
            forall|i: int|
                0 <= i < GPU_PASSES ==> #[trigger] r[i] == average(
                    self.gpu_pass_us[i],
                    self.gpu_samples,
                ),
    {
        let mut out: [u64; 10] = [0, 0, 0, 0, 0, 0, 0, 0, 0, 0];
        let mut i: usize = 0;
        while i < 10
            invariant
                i <= 10,
                forall|k: int|
                    0 <= k < i ==> #[trigger] out[k] == average(
                        self.gpu_pass_us[k],
                        self.gpu_samples,
                    ),
            decreases 10 - i,
        {
            out[i] = average_of(self.gpu_pass_us[i], self.gpu_samples);
            i += 1;
        }
        out
    }

    /// Averages per present, and of the GPU per sampled frame.
    pub fn report(&self) -> (r: StageReport)
        ensures
            r == (StageReport {
                acquire_us: average(self.acquire_us, self.presents),
                fence_wait_us: average(self.fence_wait_us, self.presents),
                submit_us: average(self.submit_us, self.presents),
                present_us: average(self.present_us, self.presents),
                sim_ns: average(self.sim_ns, self.presents),
                camera_ns: average(self.camera_ns, self.presents),
                fx_ns: average(self.fx_ns, self.presents),
                gpu_us: average(self.gpu_us, self.gpu_samples),
            }),
    {
        StageReport {
            acquire_us: average_of(self.acquire_us, self.presents),
            fence_wait_us: average_of(self.fence_wait_us, self.presents),
            submit_us: average_of(self.submit_us, self.presents),
            present_us: average_of(self.present_us, self.presents),
            sim_ns: average_of(self.sim_ns, self.presents),
            camera_ns: average_of(self.camera_ns, self.presents),
            fx_ns: average_of(self.fx_ns, self.presents),
            gpu_us: average_of(self.gpu_us, self.gpu_samples),
        }
    }
}

// ---------------------------------------------------------------------------
// SPIR-V
// ---------------------------------------------------------------------------

/// Little-endian word at byte `4 i`.
pub open spec fn word_at(bytes: Seq<u8>, i: int) -> u32 {
    (bytes[4 * i] + 0x100 * bytes[4 * i + 1] + 0x1_0000 * bytes[4 * i + 2] + 0x100_0000 * bytes[4 * i
        + 3]) as u32
}

/// Bytes of a SPIR-V module: whole words, at least one, and the magic first.
pub open spec fn is_spirv(bytes: Seq<u8>) -> bool {
    bytes.len() > 0 && bytes.len() % 4 == 0 && word_at(bytes, 0) == SPIRV_MAGIC
}

/// Words of a module.
pub open spec fn words(bytes: Seq<u8>) -> Seq<u32> {
    Seq::new(bytes.len() / 4, |i: int| word_at(bytes, i))
}

fn read_word(bytes: &[u8], i: usize) -> (r: u32)
    requires
        4 * i + 3 < bytes@.len(),
    ensures
        r == word_at(bytes@, i as int),
{
    let n: usize = bytes.len();
    assert(4 * i + 3 < n);
    bytes[4 * i] as u32 + 0x100 * (bytes[4 * i + 1] as u32) + 0x1_0000 * (bytes[4 * i + 2] as u32)
        + 0x100_0000 * (bytes[4 * i + 3] as u32)
}

/// Whether a blob is a SPIR-V module. Catches truncated and foreign blobs at
/// start.
pub fn is_spirv_blob(bytes: &[u8]) -> (r: bool)
    ensures
        r == is_spirv(bytes@),
{
    let n: usize = bytes.len();
    n > 0 && n % 4 == 0 && read_word(bytes, 0) == SPIRV_MAGIC
}

/// Copy the bytes of a SPIR-V module into aligned words.
pub fn spv_words(bytes: &[u8]) -> (r: Vec<u32>)
    requires
        is_spirv(bytes@),
    ensures
        r@ == words(bytes@),
        r.len() > 0,
        r[0] == SPIRV_MAGIC,
{
    let n: usize = bytes.len() / 4;
    let mut out: Vec<u32> = Vec::new();
    let mut i: usize = 0;
    while i < n
        invariant
            n == bytes@.len() / 4,
            i <= n,
            out@ == words(bytes@).take(i as int),
        decreases n - i,
    {
        out.push(read_word(bytes, i));
        assert(out@ =~= words(bytes@).take(i + 1));
        i += 1;
    }
    assert(out@ =~= words(bytes@));
    out
}

// ---------------------------------------------------------------------------
// Presentation
// ---------------------------------------------------------------------------

/// How presents are queued.
#[derive(Clone, Copy, Debug, PartialEq, Eq, Structural)]
pub enum PresentMode {
    Immediate,
    Mailbox,
    Fifo,
    /// A mode that the renderer never asks for.
    Other,
}

/// Why a requested present mode cannot be had.
#[derive(Clone, Copy, Debug, PartialEq, Eq, Structural)]
pub enum PresentError {
    /// The flag names no mode.
    Unknown,
    /// The surface does not offer the mode.
    Unavailable,
}

/// Mode that a flag names.
pub open spec fn mode_named(name: Seq<char>) -> Option<PresentMode> {
    if name == "immediate"@ {
        Some(PresentMode::Immediate)
    } else if name == "mailbox"@ {
        Some(PresentMode::Mailbox)
    } else if name == "fifo"@ {
        Some(PresentMode::Fifo)
    } else {
        None
    }
}

/// The preferred mode of a surface: immediate, then mailbox. Neither
/// guarantees nonblocking presents or bypasses the compositor.
pub open spec fn preferred_mode(modes: Seq<PresentMode>) -> PresentMode {
    if modes.contains(PresentMode::Immediate) {
        PresentMode::Immediate
    } else if modes.contains(PresentMode::Mailbox) {
        PresentMode::Mailbox
    } else {
        PresentMode::Fifo
    }
}

/// The mode to present with, given what a flag asks for.
pub open spec fn present_choice(
    modes: Seq<PresentMode>,
    requested: Option<Seq<char>>,
) -> Result<PresentMode, PresentError> {
    match requested {
        Some(name) => match mode_named(name) {
            Some(mode) => if modes.contains(mode) {
                Ok(mode)
            } else {
                Err(PresentError::Unavailable)
            },
            None => Err(PresentError::Unknown),
        },
        None => Ok(preferred_mode(modes)),
    }
}

/// The mode to present with. Play paces to the display refresh: rendering
/// faster makes the age of a frame at scanout drift on a beat cycle. What a
/// flag asks for overrides that.
pub open spec fn paced_choice(
    modes: Seq<PresentMode>,
    pace_to_display: bool,
    requested: Option<Seq<char>>,
) -> Result<PresentMode, PresentError> {
    if requested is None && pace_to_display && modes.contains(PresentMode::Fifo) {
        Ok(PresentMode::Fifo)
    } else {
        present_choice(modes, requested)
    }
}

fn offers(modes: &Vec<PresentMode>, mode: PresentMode) -> (r: bool)
    ensures
        r == modes@.contains(mode),
{
    let mut i: usize = 0;
    while i < modes.len()
        invariant
            i <= modes.len(),
            forall|k: int| 0 <= k < i ==> modes[k] != mode,
        decreases modes.len() - i,
    {
        if modes[i] == mode {
            return true;
        }
        i += 1;
    }
    false
}

/// Text in an optional slice.
pub open spec fn view_of(s: Option<&str>) -> Option<Seq<char>> {
    match s {
        Some(s) => Some(s@),
        None => None,
    }
}

/// Choose the present mode. `requested` is the value of the present flag.
pub fn pick_present(modes: &Vec<PresentMode>, requested: Option<&str>) -> (r: Result<
    PresentMode,
    PresentError,
>)
    ensures
        r == present_choice(modes@, view_of(requested)),
{
    match requested {
        Some(name) => {
            let mode: PresentMode = if same_text(name, "immediate") {
                PresentMode::Immediate
            } else if same_text(name, "mailbox") {
                PresentMode::Mailbox
            } else if same_text(name, "fifo") {
                PresentMode::Fifo
            } else {
                return Err(PresentError::Unknown);
            };
            if offers(modes, mode) {
                Ok(mode)
            } else {
                Err(PresentError::Unavailable)
            }
        },
        None => if offers(modes, PresentMode::Immediate) {
            Ok(PresentMode::Immediate)
        } else if offers(modes, PresentMode::Mailbox) {
            Ok(PresentMode::Mailbox)
        } else {
            Ok(PresentMode::Fifo)
        },
    }
}

/// Choose the present mode for play or for a benchmark. Benchmarks keep the
/// uncapped preference, because they measure submission capability.
pub fn pick_present_mode(
    modes: &Vec<PresentMode>,
    pace_to_display: bool,
    requested: Option<&str>,
) -> (r: Result<PresentMode, PresentError>)
    ensures
        r == paced_choice(modes@, pace_to_display, view_of(requested)),
{
    if requested.is_none() && pace_to_display && offers(modes, PresentMode::Fifo) {
        Ok(PresentMode::Fifo)
    } else {
        pick_present(modes, requested)
    }
}

/// A mode is only chosen where the surface offers it, or is the one that every
/// surface has to offer.
pub proof fn chosen_modes_are_offered(
    modes: Seq<PresentMode>,
    pace_to_display: bool,
    requested: Option<Seq<char>>,
)
    ensures
        paced_choice(modes, pace_to_display, requested) matches Ok(mode) ==> modes.contains(mode)
            || mode == PresentMode::Fifo,
{
}

/// What a flag asks for overrides the pacing of play and of benchmarks alike.
pub proof fn requests_override_pacing(
    modes: Seq<PresentMode>,
    pace_to_display: bool,
    name: Seq<char>,
)
    ensures
        paced_choice(modes, pace_to_display, Some(name)) == present_choice(modes, Some(name)),
{
}

// ---------------------------------------------------------------------------
// Device
// ---------------------------------------------------------------------------

/// The bits in `wanted` are all set in `bits`.
pub open spec fn has_bits(bits: u32, wanted: u32) -> bool {
    bits & wanted == wanted
}

/// Memory type `i` is allowed by a resource and has the properties asked for.
pub open spec fn memory_type_fits(types: Seq<u32>, type_bits: u32, flags: u32, i: int) -> bool {
    type_bits & (1u32 << i) != 0 && has_bits(types[i], flags)
}

/// First memory type that a resource allows and that has the properties asked
/// for. `types` holds the property bits of each memory type of the device.
pub fn find_memory_type(types: &Vec<u32>, type_bits: u32, flags: u32) -> (r: Option<u32>)
    requires
        types.len() <= 32,
    ensures
        match r {
            Some(i) => {
                &&& i < types.len()
                &&& memory_type_fits(types@, type_bits, flags, i as int)
                &&& forall|k: int|
                    0 <= k < i ==> !#[trigger] memory_type_fits(types@, type_bits, flags, k)
            },
            None => forall|k: int|
                0 <= k < types.len() ==> !#[trigger] memory_type_fits(types@, type_bits, flags, k),
        },
{
    let mut i: usize = 0;
    while i < types.len()
        invariant
            i <= types.len() <= 32,
            forall|k: int|
                0 <= k < i ==> !#[trigger] memory_type_fits(types@, type_bits, flags, k),
        decreases types.len() - i,
    {
        let shift: u32 = i as u32;
        if type_bits & (1u32 << shift) != 0 && types[i] & flags == flags {
            assert(memory_type_fits(types@, type_bits, flags, i as int));
            return Some(shift);
        }
        i += 1;
    }
    None
}

/// What is known of a GPU before it is chosen.
#[derive(Clone, Copy, Debug, PartialEq, Eq, Structural)]
pub struct DeviceInfo {
    pub discrete: bool,
    pub vendor_id: u32,
}

/// The GPU is of the fixed target: discrete, and of the right vendor.
pub open spec fn is_target(d: DeviceInfo) -> bool {
    d.discrete && d.vendor_id == NVIDIA_VENDOR
}

/// Choose the GPU: the last one of the fixed target.
pub fn choose_device(devices: &Vec<DeviceInfo>) -> (r: Option<usize>)
    ensures
        match r {
            Some(i) => {
                &&& i < devices.len()
                &&& is_target(devices[i as int])
                &&& forall|k: int| i < k < devices.len() ==> !is_target(#[trigger] devices[k])
            },
            None => forall|k: int| 0 <= k < devices.len() ==> !is_target(#[trigger] devices[k]),
        },
{
    let mut chosen: Option<usize> = None;
    let mut i: usize = 0;
    while i < devices.len()
        invariant
            i <= devices.len(),
            match chosen {
                Some(c) => {
                    &&& c < i
                    &&& is_target(devices[c as int])
                    &&& forall|k: int| c < k < i ==> !is_target(#[trigger] devices[k])
                },
                None => forall|k: int| 0 <= k < i ==> !is_target(#[trigger] devices[k]),
            },
        decreases devices.len() - i,
    {
        if devices[i].discrete && devices[i].vendor_id == NVIDIA_VENDOR {
            chosen = Some(i);
        }
        i += 1;
    }
    chosen
}

/// What is known of a queue family.
#[derive(Clone, Copy, Debug, PartialEq, Eq, Structural)]
pub struct QueueFamily {
    pub graphics: bool,
    /// The family can present to the surface.
    pub present: bool,
    pub queue_count: u32,
    pub timestamp_valid_bits: u32,
}

/// Queues to create.
#[derive(Clone, Copy, Debug, PartialEq, Eq, Structural)]
pub struct QueuePlan {
    pub family: usize,
    /// Queues asked for: at most two.
    pub count: u32,
    /// Queue that presents. The first one draws.
    pub present_queue: u32,
    pub timestamp_valid_bits: u32,
}

/// Why no queue can be had.
#[derive(Clone, Copy, Debug, PartialEq, Eq, Structural)]
pub enum QueueError {
    /// No family both draws and presents.
    NoFamily,
    /// The family cannot take timestamps.
    NoTimestamps,
    /// The family has no queue at all.
    NoQueue,
}

/// A family that draws and presents.
pub open spec fn is_usable(q: QueueFamily) -> bool {
    q.graphics && q.present
}

/// What to do with the first family that draws and presents.
pub open spec fn plan_for(family: usize, q: QueueFamily) -> Result<QueuePlan, QueueError> {
    if q.timestamp_valid_bits == 0 {
        Err(QueueError::NoTimestamps)
    } else if q.queue_count == 0 {
        Err(QueueError::NoQueue)
    } else {
        let count = if q.queue_count < 2 {
            q.queue_count
        } else {
            2
        };
        Ok(
            QueuePlan {
                family,
                count,
                present_queue: (count - 1) as u32,
                timestamp_valid_bits: q.timestamp_valid_bits,
            },
        )
    }
}

/// Plan the queues: the first family that draws and presents.
pub fn choose_queues(families: &Vec<QueueFamily>) -> (r: Result<QueuePlan, QueueError>)
    ensures
        (forall|k: int| 0 <= k < families.len() ==> !is_usable(#[trigger] families[k])) ==> r == Err::<
            QueuePlan,
            QueueError,
        >(QueueError::NoFamily),
        forall|i: int|
            0 <= i < families.len() && is_usable(#[trigger] families[i]) && (forall|k: int|
                0 <= k < i ==> !is_usable(#[trigger] families[k])) ==> r == plan_for(
                i as usize,
                families[i],
            ),
{
    let mut i: usize = 0;
    while i < families.len()
        invariant
            i <= families.len(),
            forall|k: int| 0 <= k < i ==> !is_usable(#[trigger] families[k]),
        decreases families.len() - i,
    {
        let q: QueueFamily = families[i];
        if q.graphics && q.present {
            if q.timestamp_valid_bits == 0 {
                return Err(QueueError::NoTimestamps);
            }
            if q.queue_count == 0 {
                return Err(QueueError::NoQueue);
            }
            let count: u32 = if q.queue_count < 2 {
                q.queue_count
            } else {
                2
            };
            return Ok(
                QueuePlan {
                    family: i,
                    count,
                    present_queue: count - 1,
                    timestamp_valid_bits: q.timestamp_valid_bits,
                },
            );
        }
        i += 1;
    }
    Err(QueueError::NoFamily)
}

/// Why a feature switch cannot be honoured.
#[derive(Clone, Copy, Debug, PartialEq, Eq, Structural)]
pub enum ToggleError {
    /// The flag is none of the standard spellings.
    Malformed,
    /// The feature was asked for, and the device lacks it.
    Unavailable,
}

/// Whether a feature is used, given its flag and what the device can do.
pub open spec fn toggled(
    flag: Option<Result<Toggle, &'static str>>,
    available: bool,
) -> Result<bool, ToggleError> {
    match flag {
        None => Ok(available),
        Some(Ok(Toggle::Auto)) => Ok(available),
        Some(Ok(Toggle::Off)) => Ok(false),
        Some(Ok(Toggle::On)) => if available {
            Ok(true)
        } else {
            Err(ToggleError::Unavailable)
        },
        Some(Err(_)) => Err(ToggleError::Malformed),
    }
}

/// Decide on a feature path from its tri-state flag.
pub fn resolve_toggle(flag: Option<Result<Toggle, &'static str>>, available: bool) -> (r: Result<
    bool,
    ToggleError,
>)
    ensures
        r == toggled(flag, available),
{
    match flag {
        None => Ok(available),
        Some(Ok(Toggle::Auto)) => Ok(available),
        Some(Ok(Toggle::Off)) => Ok(false),
        Some(Ok(Toggle::On)) => if available {
            Ok(true)
        } else {
            Err(ToggleError::Unavailable)
        },
        Some(Err(_)) => Err(ToggleError::Malformed),
    }
}

/// A feature is never used on a device that lacks it.
pub proof fn features_need_the_device(flag: Option<Result<Toggle, &'static str>>)
    ensures
        toggled(flag, false) != Ok::<bool, ToggleError>(true),
{
}

/// What a device offers that the optional paths need.
#[derive(Clone, Copy, Debug, PartialEq, Eq, Structural)]
pub struct Capabilities {
    pub shading_rate_extension: bool,
    pub shading_rate_feature: bool,
    pub acceleration_extension: bool,
    pub ray_query_extension: bool,
    pub deferred_extension: bool,
    pub acceleration_feature: bool,
    pub ray_query_feature: bool,
    pub buffer_address_feature: bool,
    pub present_id_extension: bool,
    pub present_wait_extension: bool,
    pub present_id_feature: bool,
    pub present_wait_feature: bool,
    pub display_timing_extension: bool,
}

/// Optional device paths that are used.
#[derive(Clone, Copy, Debug, PartialEq, Eq, Structural)]
pub struct Paths {
    /// Coarse shading of the ground.
    pub shading_rate: bool,
    /// Ray-traced shadows.
    pub ray_query: bool,
    /// Presents wait for scanout.
    pub present_wait: bool,
    /// Display times are read back.
    pub display_timing: bool,
}

impl Capabilities {
    /// All parts of ray-traced shadows are there.
    pub open spec fn ray_query(self) -> bool {
        self.acceleration_extension && self.ray_query_extension && self.deferred_extension
            && self.acceleration_feature && self.ray_query_feature && self.buffer_address_feature
    }

    /// All parts of display pacing are there.
    pub open spec fn present_wait(self) -> bool {
        self.present_id_extension && self.present_wait_extension && self.present_id_feature
            && self.present_wait_feature
    }

    /// Decide on the optional paths. Only the ray-traced shadows have a flag,
    /// and display times are only wanted by a benchmark.
    pub fn resolve(
        &self,
        rt_flag: Option<Result<Toggle, &'static str>>,
        benchmarking: bool,
    ) -> (r: Result<Paths, ToggleError>)
        ensures
            match toggled(rt_flag, self.ray_query()) {
                Ok(ray_query) => r == Ok::<Paths, ToggleError>(
                    Paths {
                        shading_rate: self.shading_rate_extension && self.shading_rate_feature,
                        ray_query,
                        present_wait: self.present_wait(),
                        display_timing: benchmarking && self.display_timing_extension,
                    },
                ),
                Err(e) => r == Err::<Paths, ToggleError>(e),
            },
    {
        let rt_available: bool = self.acceleration_extension && self.ray_query_extension
            && self.deferred_extension && self.acceleration_feature && self.ray_query_feature
            && self.buffer_address_feature;
        match resolve_toggle(rt_flag, rt_available) {
            Ok(ray_query) => Ok(
                Paths {
                    shading_rate: self.shading_rate_extension && self.shading_rate_feature,
                    ray_query,
                    present_wait: self.present_id_extension && self.present_wait_extension
                        && self.present_id_feature && self.present_wait_feature,
                    display_timing: benchmarking && self.display_timing_extension,
                },
            ),
            Err(e) => Err(e),
        }
    }
}

/// A device extension that the renderer may enable.
#[derive(Clone, Copy, Debug, PartialEq, Eq, Structural)]
pub enum Extension {
    Swapchain,
    FragmentShadingRate,
    AccelerationStructure,
    RayQuery,
    DeferredHostOperations,
    PresentId,
    PresentWait,
    DisplayTiming,
}

impl Paths {
    /// Extensions that the paths need, in the order in which they are enabled.
    pub open spec fn extension_list(self) -> Seq<Extension> {
        let a = seq![Extension::Swapchain];
        let b = if self.shading_rate {
            a.push(Extension::FragmentShadingRate)
        } else {
            a
        };
        let c = if self.ray_query {
            b.push(Extension::AccelerationStructure).push(Extension::RayQuery).push(
                Extension::DeferredHostOperations,
            )
        } else {
            b
        };
        let d = if self.present_wait {
            c.push(Extension::PresentId).push(Extension::PresentWait)
        } else {
            c
        };
        if self.display_timing {
            d.push(Extension::DisplayTiming)
        } else {
            d
        }
    }

    /// Extensions to enable on the device.
    pub fn extensions(&self) -> (r: Vec<Extension>)
        ensures
            r@ == self.extension_list(),
    {
        let mut out: Vec<Extension> = Vec::new();
        out.push(Extension::Swapchain);
        assert(out@ =~= seq![Extension::Swapchain]);
        if self.shading_rate {
            out.push(Extension::FragmentShadingRate);
        }
        if self.ray_query {
            out.push(Extension::AccelerationStructure);
            out.push(Extension::RayQuery);
            out.push(Extension::DeferredHostOperations);
        }
        if self.present_wait {
            out.push(Extension::PresentId);
            out.push(Extension::PresentWait);
        }
        if self.display_timing {
            out.push(Extension::DisplayTiming);
        }
        out
    }
}

/// A format and colour space that a surface offers.
#[derive(Clone, Copy, Debug, PartialEq, Eq, Structural)]
pub struct SurfaceFormat {
    pub format: i32,
    pub color_space: i32,
}

/// Choose the surface format: the wanted one, else the first.
pub fn choose_format(formats: &Vec<SurfaceFormat>, wanted: SurfaceFormat) -> (r: SurfaceFormat)
    requires
        formats.len() > 0,
    ensures
        r == (if formats@.contains(wanted) {
            wanted
        } else {
            formats[0]
        }),
{
    let mut i: usize = 0;
    while i < formats.len()
        invariant
            i <= formats.len(),
            formats.len() > 0,
            forall|k: int| 0 <= k < i ==> formats[k] != wanted,
        decreases formats.len() - i,
    {
        if formats[i] == wanted {
            return wanted;
        }
        i += 1;
    }
    formats[0]
}

/// A number brought into a range.
pub open spec fn clamped(x: u32, low: u32, high: u32) -> u32 {
    if x < low {
        low
    } else if x > high {
        high
    } else {
        x
    }
}

fn clamp_to(x: u32, low: u32, high: u32) -> (r: u32)
    requires
        low <= high,
    ensures
        r == clamped(x, low, high),
        low <= r <= high,
{
    if x < low {
        low
    } else if x > high {
        high
    } else {
        x
    }
}

/// Width and height of an image.
#[derive(Clone, Copy, Debug, PartialEq, Eq, Structural)]
pub struct Extent {
    pub width: u32,
    pub height: u32,
}

/// Swapchain extent: the window size within what the surface allows.
pub fn swap_extent(size: Extent, min: Extent, max: Extent) -> (r: Extent)
    requires
        min.width <= max.width,
        min.height <= max.height,
    ensures
        r.width == clamped(size.width, min.width, max.width),
        r.height == clamped(size.height, min.height, max.height),
        min.width <= r.width <= max.width,
        min.height <= r.height <= max.height,
{
    Extent {
        width: clamp_to(size.width, min.width, max.width),
        height: clamp_to(size.height, min.height, max.height),
    }
}

/// Images to ask for. A maximum of zero stands for no limit.
pub fn image_count(min: u32, max: u32) -> (r: u32)
    requires
        max == 0 || min <= max,
    ensures
        r == clamped(
            SWAPCHAIN_IMAGES,
            min,
            if max == 0 {
                u32::MAX
            } else {
                max
            },
        ),
        r >= min,
        max != 0 ==> r <= max,
{
    clamp_to(
        SWAPCHAIN_IMAGES,
        min,
        if max == 0 {
            u32::MAX
        } else {
            max
        },
    )
}

/// Whether a resource of this size gets an allocation of its own.
pub fn wants_dedicated(size: u64) -> (r: bool)
    ensures
        r == (size >= DEDICATE_ABOVE),
{
    size >= DEDICATE_ABOVE
}

// ---------------------------------------------------------------------------
// Startup options
// ---------------------------------------------------------------------------

/// Why the benchmark option cannot be honoured.
#[derive(Clone, Copy, Debug, PartialEq, Eq, Structural)]
pub enum BenchmarkError {
    /// No present count follows the option, or it is zero.
    MissingCount,
    /// What follows is no number.
    InvalidCount,
}

/// First place of an argument.
pub open spec fn argument_at(args: Seq<String>, name: Seq<char>) -> Option<int>
    decreases args.len(),
{
    if args.len() == 0 {
        None
    } else {
        match argument_at(args.drop_last(), name) {
            Some(i) => Some(i),
            None => if args.last()@ == name {
                Some(args.len() - 1)
            } else {
                None
            },
        }
    }
}

/// Presents to measure, where a benchmark is asked for.
pub open spec fn benchmark_option(args: Seq<String>) -> Result<Option<nat>, BenchmarkError> {
    match argument_at(args, "--benchmark"@) {
        None => Ok(None),
        Some(i) => if i + 1 >= args.len() {
            Err(BenchmarkError::MissingCount)
        } else {
            match text::parsed(args[i + 1]@, u64::MAX as nat) {
                Some(n) => if n == 0 {
                    Err(BenchmarkError::MissingCount)
                } else {
                    Ok(Some(n))
                },
                None => Err(BenchmarkError::InvalidCount),
            }
        },
    }
}

/// First place of an argument.
pub fn find_argument(args: &Vec<String>, name: &str) -> (r: Option<usize>)
    ensures
        match r {
            Some(i) => argument_at(args@, name@) == Some(i as int) && i < args.len(),
            None => argument_at(args@, name@) is None,
        },
{
    let mut i: usize = 0;
    let mut found: Option<usize> = None;
    assert(args@.take(0) =~= Seq::empty());
    while i < args.len()
        invariant
            i <= args.len(),
            match found {
                Some(k) => argument_at(args@.take(i as int), name@) == Some(k as int) && k < i,
                None => argument_at(args@.take(i as int), name@) is None,
            },
        decreases args.len() - i,
    {
        assert(args@.take(i + 1).drop_last() =~= args@.take(i as int));
        if found.is_none() && same_text(args[i].as_str(), name) {
            found = Some(i);
        }
        i += 1;
    }
    assert(args@.take(i as int) =~= args@);
    found
}

/// Presents to measure, where the arguments ask for a benchmark.
pub fn benchmark_target(args: &Vec<String>) -> (r: Result<Option<u64>, BenchmarkError>)
    ensures
        match benchmark_option(args@) {
            Ok(Some(n)) => r == Ok::<Option<u64>, BenchmarkError>(Some(n as u64)) && n as u64 == n,
            Ok(None) => r == Ok::<Option<u64>, BenchmarkError>(None),
            Err(e) => r == Err::<Option<u64>, BenchmarkError>(e),
        },
{
    match find_argument(args, "--benchmark") {
        None => Ok(None),
        Some(i) => if i + 1 >= args.len() {
            Err(BenchmarkError::MissingCount)
        } else {
            match parse_u64(args[i + 1].as_str()) {
                Some(n) => if n == 0 {
                    Err(BenchmarkError::MissingCount)
                } else {
                    Ok(Some(n))
                },
                None => Err(BenchmarkError::InvalidCount),
            }
        },
    }
}

/// Presents between GPU readbacks. A benchmark reads every frame.
pub open spec fn readback_option(benchmarking: bool, flag: Option<Seq<char>>) -> Option<nat> {
    if benchmarking {
        Some(1)
    } else {
        match flag {
            Some(value) => text::parsed(value, u64::MAX as nat),
            None => Some(READBACK_EVERY_DEFAULT as nat),
        }
    }
}

/// Presents between GPU readbacks, `None` where the flag is no number.
pub fn readback_every(benchmarking: bool, flag: Option<&str>) -> (r: Option<u64>)
    ensures
        match r {
            Some(n) => readback_option(benchmarking, view_of(flag)) == Some(n as nat),
            None => readback_option(benchmarking, view_of(flag)) is None,
        },
{
    if benchmarking {
        Some(1)
    } else {
        match flag {
            Some(value) => parse_u64(value),
            None => Some(READBACK_EVERY_DEFAULT),
        }
    }
}

// ---------------------------------------------------------------------------
// What the choices are for
// ---------------------------------------------------------------------------

/// An average is the largest whole number that, taken as often as there were
/// samples, does not exceed their sum. Without samples it is the sum.
pub proof fn averages_share_the_sum(sum: u64, n: u64)
    ensures
        n > 0 ==> n * average(sum, n) <= sum < n * (average(sum, n) + 1),
        n == 0 ==> average(sum, n) == sum,
{
    if n > 0 {
        vstd::arithmetic::div_mod::lemma_fundamental_div_mod(sum as int, n as int);
        vstd::arithmetic::div_mod::lemma_mod_bound(sum as int, n as int);
        assert(n * (average(sum, n) + 1) == n * average(sum, n) + n) by (nonlinear_arith);
    }
}

/// The bytes of a module are found again in its words, the lowest first.
pub proof fn words_hold_the_bytes(bytes: Seq<u8>, i: int)
    requires
        0 <= i < words(bytes).len(),
    ensures
        words(bytes)[i] as int % 256 == bytes[4 * i],
        (words(bytes)[i] as int / 0x100) % 256 == bytes[4 * i + 1],
        (words(bytes)[i] as int / 0x1_0000) % 256 == bytes[4 * i + 2],
        words(bytes)[i] as int / 0x100_0000 == bytes[4 * i + 3],
        4 * words(bytes).len() <= bytes.len() < 4 * words(bytes).len() + 4,
{
    let (a, b, c, d) = (
        bytes[4 * i] as int,
        bytes[4 * i + 1] as int,
        bytes[4 * i + 2] as int,
        bytes[4 * i + 3] as int,
    );
    let w = a + 0x100 * b + 0x1_0000 * c + 0x100_0000 * d;
    assert(words(bytes)[i] as int == w);
    assert(w / 0x100 == b + 0x100 * c + 0x1_0000 * d);
    assert(w / 0x1_0000 == c + 0x100 * d);
}

/// A module is told by its first four bytes and by being made of whole words.
pub proof fn modules_begin_with_the_magic(bytes: Seq<u8>)
    ensures
        is_spirv(bytes) <==> bytes.len() >= 4 && bytes.len() % 4 == 0 && bytes[0] == 0x03 && bytes[1]
            == 0x02 && bytes[2] == 0x23 && bytes[3] == 0x07,
{
}

/// A mode is asked for by its name in small letters, and by no other text. No
/// text asks for a mode that the renderer does not know.
pub proof fn modes_go_by_their_names(name: Seq<char>)
    ensures
        match mode_named(name) {
            Some(PresentMode::Immediate) => name.len() == 9 && name[0] == 'i',
            Some(PresentMode::Mailbox) => name.len() == 7 && name[0] == 'm',
            Some(PresentMode::Fifo) => name.len() == 4 && name[0] == 'f',
            Some(PresentMode::Other) => false,
            None => true,
        },
        mode_named(name) is None <==> name != "immediate"@ && name != "mailbox"@ && name
            != "fifo"@,
{
    reveal_strlit("immediate");
    reveal_strlit("mailbox");
    reveal_strlit("fifo");
}

/// How long a present may be held back: not at all, until the next one
/// replaces it, or until its turn.
pub open spec fn patience(mode: PresentMode) -> int {
    match mode {
        PresentMode::Immediate => 0,
        PresentMode::Mailbox => 1,
        PresentMode::Fifo => 2,
        PresentMode::Other => 3,
    }
}

/// Without a request, a benchmark presents with the least patient mode that
/// the surface offers. Play waits its turn where it can, and does the same as a
/// benchmark where it cannot.
pub proof fn benchmarks_do_not_wait(modes: Seq<PresentMode>, offered: PresentMode)
    requires
        modes.contains(offered),
    ensures
        paced_choice(modes, false, None) matches Ok(mode) && patience(mode) <= patience(offered)
            && patience(mode) <= 2,
        offered == PresentMode::Fifo ==> paced_choice(modes, true, None) == Ok::<
            PresentMode,
            PresentError,
        >(PresentMode::Fifo),
        !modes.contains(PresentMode::Fifo) ==> paced_choice(modes, true, None) == paced_choice(
            modes,
            false,
            None,
        ),
{
}

/// A request is honoured to the letter or refused: what it names is chosen
/// where the surface offers it, else it is unavailable, and a text that names
/// nothing is unknown.
pub proof fn requests_are_honoured(modes: Seq<PresentMode>, pace: bool, name: Seq<char>)
    ensures
        match paced_choice(modes, pace, Some(name)) {
            Ok(mode) => mode_named(name) == Some(mode) && modes.contains(mode),
            Err(PresentError::Unavailable) => mode_named(name) matches Some(mode)
                && !modes.contains(mode),
            Err(PresentError::Unknown) => mode_named(name) is None,
        },
{
}

/// A memory type that fits has every property that was asked for, and is one
/// that the resource allows. Asking for fewer properties rules out no type.
pub proof fn fitting_types_have_the_properties(
    types: Seq<u32>,
    type_bits: u32,
    flags: u32,
    fewer: u32,
    i: int,
    bit: u32,
)
    requires
        0 <= i < types.len() <= 32,
        bit < 32,
    ensures
        memory_type_fits(types, type_bits, flags, i) ==> (flags & (1u32 << bit) != 0 ==> types[i] & (
        1u32 << bit) != 0),
        memory_type_fits(types, type_bits, flags, i) && has_bits(flags, fewer)
            ==> memory_type_fits(types, type_bits, fewer, i),
        memory_type_fits(types, type_bits, 0, i) <==> type_bits & (1u32 << i) != 0,
{
    let t = types[i];
    assert(t & flags == flags && flags & (1u32 << bit) != 0 ==> t & (1u32 << bit) != 0)
        by (bit_vector);
    assert(t & flags == flags && flags & fewer == fewer ==> t & fewer == fewer) by (bit_vector);
    assert(t & 0 == 0) by (bit_vector);
}

/// A GPU is of the target where it is discrete and of the vendor with the
/// number 0x10DE. A family is usable where it can do both, draw and present.
pub proof fn targets_and_families_do_all(d: DeviceInfo, q: QueueFamily)
    ensures
        is_target(d) ==> d.discrete && d.vendor_id == 0x10DE,
        !is_target(d) ==> !d.discrete || d.vendor_id != 0x10DE,
        is_usable(q) ==> q.graphics && q.present,
        !is_usable(q) ==> !q.graphics || !q.present,
{
}

/// Queues that are planned exist. Where there are two, one draws and the other
/// presents; where there is one, it does both. A plan can be had where there
/// is a queue and it can take timestamps, and the timestamps come first.
pub proof fn planned_queues_exist(family: usize, q: QueueFamily)
    ensures
        match plan_for(family, q) {
            Ok(p) => {
                &&& p.family == family
                &&& 1 <= p.count <= q.queue_count
                &&& p.count <= 2
                &&& p.present_queue < p.count
                &&& q.queue_count >= 2 ==> p.count == 2 && p.present_queue != 0
                &&& p.timestamp_valid_bits == q.timestamp_valid_bits
                &&& p.timestamp_valid_bits > 0
            },
            Err(QueueError::NoTimestamps) => q.timestamp_valid_bits == 0,
            Err(QueueError::NoQueue) => q.timestamp_valid_bits > 0 && q.queue_count == 0,
            Err(QueueError::NoFamily) => false,
        },
{
}

/// A feature that is not asked for either way is used where the device has it.
/// One that is switched off never is, and switching it off never fails. One
/// that is switched on is used, or fails where the device lacks it. A flag that
/// cannot be read always fails.
pub proof fn switches_are_obeyed(available: bool, message: &'static str)
    ensures
        toggled(None, available) == Ok::<bool, ToggleError>(available),
        toggled(Some(Ok(Toggle::Auto)), available) == toggled(None, available),
        toggled(Some(Ok(Toggle::Off)), available) == Ok::<bool, ToggleError>(false),
        toggled(Some(Ok(Toggle::On)), available) == if available {
            Ok::<bool, ToggleError>(true)
        } else {
            Err(ToggleError::Unavailable)
        },
        toggled(Some(Err(message)), available) == Err::<bool, ToggleError>(ToggleError::Malformed),
{
}

/// A device can trace shadows where it has all six parts of it, and pace its
/// presents where it has all four: taking any one away loses the path, and
/// nothing else does.
pub proof fn paths_need_all_their_parts(c: Capabilities)
    ensures
        c.ray_query() ==> c.acceleration_extension && c.ray_query_extension && c.deferred_extension
            && c.acceleration_feature && c.ray_query_feature && c.buffer_address_feature,
        !c.ray_query() ==> !c.acceleration_extension || !c.ray_query_extension
            || !c.deferred_extension || !c.acceleration_feature || !c.ray_query_feature
            || !c.buffer_address_feature,
        c.present_wait() ==> c.present_id_extension && c.present_wait_extension
            && c.present_id_feature && c.present_wait_feature,
        !c.present_wait() ==> !c.present_id_extension || !c.present_wait_extension
            || !c.present_id_feature || !c.present_wait_feature,
{
}

/// Path that an extension is for, `None` for the one that presents at all.
pub open spec fn path_of(p: Paths, e: Extension) -> Option<bool> {
    match e {
        Extension::Swapchain => None,
        Extension::FragmentShadingRate => Some(p.shading_rate),
        Extension::AccelerationStructure | Extension::RayQuery | Extension::DeferredHostOperations =>
            Some(p.ray_query),
        Extension::PresentId | Extension::PresentWait => Some(p.present_wait),
        Extension::DisplayTiming => Some(p.display_timing),
    }
}

/// An extension is enabled where its path is used, and only there, and none is
/// enabled twice.
pub proof fn extensions_follow_the_paths(p: Paths, e: Extension)
    ensures
        p.extension_list().contains(e) <==> path_of(p, e) != Some(false),
        p.extension_list().no_duplicates(),
{
    let l = p.extension_list();
    let a = seq![Extension::Swapchain];
    let b = if p.shading_rate {
        a.push(Extension::FragmentShadingRate)
    } else {
        a
    };
    let c = if p.ray_query {
        b.push(Extension::AccelerationStructure).push(Extension::RayQuery).push(
            Extension::DeferredHostOperations,
        )
    } else {
        b
    };
    let d = if p.present_wait {
        c.push(Extension::PresentId).push(Extension::PresentWait)
    } else {
        c
    };
    assert(l[0] == Extension::Swapchain);
    if p.shading_rate {
        assert(l[1] == Extension::FragmentShadingRate);
    }
    if p.ray_query {
        let n = b.len() as int;
        assert(l[n] == Extension::AccelerationStructure && l[n + 1] == Extension::RayQuery && l[n
            + 2] == Extension::DeferredHostOperations);
    }
    if p.present_wait {
        let n = c.len() as int;
        assert(l[n] == Extension::PresentId && l[n + 1] == Extension::PresentWait);
    }
    if p.display_timing {
        assert(l[d.len() as int] == Extension::DisplayTiming);
    }
}

/// A number that is brought into a range lies in it, and is the one of the
/// range that is nearest to it.
pub proof fn clamping_stays_near(x: u32, low: u32, high: u32, other: u32)
    requires
        low <= other <= high,
    ensures
        ({
            let r = clamped(x, low, high);
            &&& low <= r <= high
            &&& x <= r ==> r - x <= if other > x {
                other - x
            } else {
                x - other
            }
            &&& r <= x ==> x - r <= if other > x {
                other - x
            } else {
                x - other
            }
        }),
{
}

/// The place of an argument is the first at which it stands.
pub proof fn arguments_are_found_first(args: Seq<String>, name: Seq<char>)
    ensures
        match argument_at(args, name) {
            Some(i) => 0 <= i < args.len() && args[i]@ == name && forall|k: int|
                0 <= k < i ==> (#[trigger] args[k])@ != name,
            None => forall|k: int| 0 <= k < args.len() ==> (#[trigger] args[k])@ != name,
        },
    decreases args.len(),
{
    if args.len() > 0 {
        let shorter = args.drop_last();
        arguments_are_found_first(shorter, name);
        assert forall|k: int| 0 <= k < shorter.len() implies #[trigger] args[k] == shorter[k] by {}
    }
}

/// A benchmark is asked for by the option with a number behind it, and measures
/// that many presents, at least one. Without the option there is none, whatever
/// else is asked for.
pub proof fn benchmarks_measure_what_is_asked(args: Seq<String>, i: int)
    requires
        0 <= i < args.len(),
        args[i]@ == "--benchmark"@,
        forall|k: int| 0 <= k < i ==> (#[trigger] args[k])@ != "--benchmark"@,
    ensures
        match benchmark_option(args) {
            Ok(Some(n)) => n > 0 && i + 1 < args.len() && text::parsed(
                args[i + 1]@,
                u64::MAX as nat,
            ) == Some(n),
            Ok(None) => false,
            Err(BenchmarkError::MissingCount) => i + 1 == args.len() || text::parsed(
                args[i + 1]@,
                u64::MAX as nat,
            ) == Some(0nat),
            Err(BenchmarkError::InvalidCount) => i + 1 < args.len() && text::parsed(
                args[i + 1]@,
                u64::MAX as nat,
            ) is None,
        },
{
    arguments_are_found_first(args, "--benchmark"@);
}

/// Without the option there is no benchmark.
pub proof fn play_is_no_benchmark(args: Seq<String>)
    requires
        forall|k: int| 0 <= k < args.len() ==> (#[trigger] args[k])@ != "--benchmark"@,
    ensures
        benchmark_option(args) == Ok::<Option<nat>, BenchmarkError>(None),
{
    arguments_are_found_first(args, "--benchmark"@);
}

/// A benchmark reads every frame back, whatever the flag says. Play reads every
/// sixteenth, or as the flag says.
pub proof fn benchmarks_read_every_frame(flag: Option<Seq<char>>, value: Seq<char>)
    ensures
        readback_option(true, flag) == Some(1nat),
        readback_option(false, None) == Some(16nat),
        readback_option(false, Some(value)) == text::parsed(value, u64::MAX as nat),
{
}

} // verus!
