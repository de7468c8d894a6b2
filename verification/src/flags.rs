//! Central registry for every `EXPLORA_*` process flag.
//!
//! Two classes only:
//!
//! - **Play flags** configure the shipping game (window, audio, wind, HUD).
//!   They are read in every build.
//! - **Debug-only** flags select reduced visual quality, an alternate GPU
//!   path, a pacing or present override, a forced flight regime, or a
//!   measurement diagnostic. A playable build never reads those names. The
//!   playable configuration is one preset: max visual quality.
//!
//! Naming standard:
//! - Tri-state feature paths use `auto`, `on`, or `off` (`parse_toggle`).
//! - Simple enable flags use `0` / `1` (`debug_enabled` / `play_enabled`).
//! - Numeric flags are decimal (`play_u32`, `play_u64`).
//! - One name string per flag, declared once below.
//!
//! The functions read a snapshot of the process environment, so that a flag
//! has one value for the whole run.
use crate::text;
use crate::text::{parse_list, parse_u32, parse_u64, same_text};
use vstd::prelude::*;
use vstd::string::*;

verus! {

// ---------------------------------------------------------------------------
// Flag names
// ---------------------------------------------------------------------------

// Play (every build)
pub const WINDOWED: &'static str = "EXPLORA_WINDOWED";

pub const VOLUME: &'static str = "EXPLORA_VOLUME";

pub const AUDIO: &'static str = "EXPLORA_AUDIO";

pub const AUDIO_DEVICE: &'static str = "EXPLORA_AUDIO_DEVICE";

pub const HUD: &'static str = "EXPLORA_HUD";

pub const WIND: &'static str = "EXPLORA_WIND";

// Debug-only: quality, alternate paths, pacing and present, diagnostics
pub const QUALITY: &'static str = "EXPLORA_QUALITY";

pub const IBL_SAMPLES: &'static str = "EXPLORA_IBL_SAMPLES";

pub const BURST: &'static str = "EXPLORA_BURST";

pub const RT_SHADOWS: &'static str = "EXPLORA_RT_SHADOWS";

pub const MESH_SHADERS: &'static str = "EXPLORA_MESH_SHADERS";

pub const GPU_VEGETATION: &'static str = "EXPLORA_GPU_VEGETATION";

pub const PACING: &'static str = "EXPLORA_PACING";

pub const PRESENT: &'static str = "EXPLORA_PRESENT";

pub const PRESENT_FEEDBACK: &'static str = "EXPLORA_PRESENT_FEEDBACK";

pub const FX: &'static str = "EXPLORA_FX";

pub const NO_GPU: &'static str = "EXPLORA_NO_GPU";

pub const GPU_READBACK_EVERY: &'static str = "EXPLORA_GPU_READBACK_EVERY";

pub const GPU_SPIKE_US: &'static str = "EXPLORA_GPU_SPIKE_US";

pub const FREEZE: &'static str = "EXPLORA_FREEZE";

pub const FREEZE_POSE: &'static str = "EXPLORA_FREEZE_POSE";

pub const BOOST: &'static str = "EXPLORA_BOOST";

pub const BANK: &'static str = "EXPLORA_BANK";

pub const PITCH: &'static str = "EXPLORA_PITCH";

pub const SHOT: &'static str = "EXPLORA_SHOT";

pub const SHOT_FRAME: &'static str = "EXPLORA_SHOT_FRAME";

pub const BENCH_JSON: &'static str = "EXPLORA_BENCH_JSON";

pub const START_X: &'static str = "EXPLORA_X";

pub const START_Z: &'static str = "EXPLORA_Z";

pub const START_ALT: &'static str = "EXPLORA_ALT";

pub const START_HEADING: &'static str = "EXPLORA_HEADING";

/// Names of the play flags.
pub open spec fn play_names() -> Seq<Seq<char>> {
    seq![
        WINDOWED@,
        VOLUME@,
        AUDIO@,
        AUDIO_DEVICE@,
        HUD@,
        WIND@,
    ]
}

/// Names of the debug-only flags.
pub open spec fn debug_names() -> Seq<Seq<char>> {
    seq![
        QUALITY@,
        IBL_SAMPLES@,
        BURST@,
        RT_SHADOWS@,
        MESH_SHADERS@,
        GPU_VEGETATION@,
        PACING@,
        PRESENT@,
        PRESENT_FEEDBACK@,
        FX@,
        NO_GPU@,
        GPU_READBACK_EVERY@,
        GPU_SPIKE_US@,
        FREEZE@,
        FREEZE_POSE@,
        BOOST@,
        BANK@,
        PITCH@,
        SHOT@,
        SHOT_FRAME@,
        BENCH_JSON@,
        START_X@,
        START_Z@,
        START_ALT@,
        START_HEADING@,
    ]
}

/// Names of all flags.
pub open spec fn names() -> Seq<Seq<char>> {
    play_names() + debug_names()
}

/// A number that tells the flag names apart: length and two characters.
spec fn name_tag(s: Seq<char>) -> int {
    1000000 * s.len() + 1000 * (s[8] as int) + if s.len() > 9 {
        s[9] as int
    } else {
        s[8] as int
    }
}

/// Place of the flag name with this tag.
spec fn tag_place(tag: int) -> int {
    if tag == 16087073 {
        0
    } else if tag == 14086079 {
        1
    } else if tag == 13065085 {
        2
    } else if tag == 20065085 {
        3
    } else if tag == 11072085 {
        4
    } else if tag == 12087073 {
        5
    } else if tag == 15081085 {
        6
    } else if tag == 19073066 {
        7
    } else if tag == 13066085 {
        8
    } else if tag == 18082084 {
        9
    } else if tag == 20077069 {
        10
    } else if tag == 22071080 {
        11
    } else if tag == 14080065 {
        12
    } else if tag == 15080082 {
        13
    } else if tag == 24080082 {
        14
    } else if tag == 10070088 {
        15
    } else if tag == 14078079 {
        16
    } else if tag == 26071080 {
        17
    } else if tag == 20071080 {
        18
    } else if tag == 14070082 {
        19
    } else if tag == 19070082 {
        20
    } else if tag == 13066079 {
        21
    } else if tag == 12066065 {
        22
    } else if tag == 13080073 {
        23
    } else if tag == 12083072 {
        24
    } else if tag == 18083072 {
        25
    } else if tag == 18066069 {
        26
    } else if tag == 9088088 {
        27
    } else if tag == 9090090 {
        28
    } else if tag == 11065076 {
        29
    } else if tag == 15072069 {
        30
    } else {
        -1
    }
}

spec fn prefixed(s: Seq<char>) -> bool {
    "EXPLORA_"@.is_prefix_of(s)
}

proof fn play_names_placed(i: int)
    requires
        0 <= i < 6,
    ensures
        tag_place(name_tag(play_names()[i])) == i,
        prefixed(play_names()[i]),
{
    reveal_strlit("EXPLORA_");
    reveal_strlit("EXPLORA_WINDOWED");
    reveal_strlit("EXPLORA_VOLUME");
    reveal_strlit("EXPLORA_AUDIO");
    reveal_strlit("EXPLORA_AUDIO_DEVICE");
    reveal_strlit("EXPLORA_HUD");
    reveal_strlit("EXPLORA_WIND");
}

proof fn debug_names_placed_0(i: int)
    requires
        0 <= i < 5,
    ensures
        tag_place(name_tag(debug_names()[i])) == i + 6,
        prefixed(debug_names()[i]),
{
    reveal_strlit("EXPLORA_");
    reveal_strlit("EXPLORA_QUALITY");
    reveal_strlit("EXPLORA_IBL_SAMPLES");
    reveal_strlit("EXPLORA_BURST");
    reveal_strlit("EXPLORA_RT_SHADOWS");
    reveal_strlit("EXPLORA_MESH_SHADERS");
}

proof fn debug_names_placed_1(i: int)
    requires
        5 <= i < 10,
    ensures
        tag_place(name_tag(debug_names()[i])) == i + 6,
        prefixed(debug_names()[i]),
{
    reveal_strlit("EXPLORA_");
    reveal_strlit("EXPLORA_GPU_VEGETATION");
    reveal_strlit("EXPLORA_PACING");
    reveal_strlit("EXPLORA_PRESENT");
    reveal_strlit("EXPLORA_PRESENT_FEEDBACK");
    reveal_strlit("EXPLORA_FX");
}

proof fn debug_names_placed_2(i: int)
    requires
        10 <= i < 15,
    ensures
        tag_place(name_tag(debug_names()[i])) == i + 6,
        prefixed(debug_names()[i]),
{
    reveal_strlit("EXPLORA_");
    reveal_strlit("EXPLORA_NO_GPU");
    reveal_strlit("EXPLORA_GPU_READBACK_EVERY");
    reveal_strlit("EXPLORA_GPU_SPIKE_US");
    reveal_strlit("EXPLORA_FREEZE");
    reveal_strlit("EXPLORA_FREEZE_POSE");
}

proof fn debug_names_placed_3(i: int)
    requires
        15 <= i < 20,
    ensures
        tag_place(name_tag(debug_names()[i])) == i + 6,
        prefixed(debug_names()[i]),
{
    reveal_strlit("EXPLORA_");
    reveal_strlit("EXPLORA_BOOST");
    reveal_strlit("EXPLORA_BANK");
    reveal_strlit("EXPLORA_PITCH");
    reveal_strlit("EXPLORA_SHOT");
    reveal_strlit("EXPLORA_SHOT_FRAME");
}

proof fn debug_names_placed_4(i: int)
    requires
        20 <= i < 25,
    ensures
        tag_place(name_tag(debug_names()[i])) == i + 6,
        prefixed(debug_names()[i]),
{
    reveal_strlit("EXPLORA_");
    reveal_strlit("EXPLORA_BENCH_JSON");
    reveal_strlit("EXPLORA_X");
    reveal_strlit("EXPLORA_Z");
    reveal_strlit("EXPLORA_ALT");
    reveal_strlit("EXPLORA_HEADING");
}

proof fn names_placed(i: int)
    requires
        0 <= i < names().len(),
    ensures
        tag_place(name_tag(names()[i])) == i,
        prefixed(names()[i]),
{
    if i < 6 {
        play_names_placed(i);
    } else if i < 11 {
        debug_names_placed_0(i - 6);
    } else if i < 16 {
        debug_names_placed_1(i - 6);
    } else if i < 21 {
        debug_names_placed_2(i - 6);
    } else if i < 26 {
        debug_names_placed_3(i - 6);
    } else {
        debug_names_placed_4(i - 6);
    }
}

/// Every flag name starts with the common prefix, and no two flags share a
/// name. So no play flag is a debug-only flag.
pub proof fn flag_names_are_distinct(i: int, j: int)
    requires
        0 <= i < names().len(),
        0 <= j < names().len(),
    ensures
        "EXPLORA_"@.is_prefix_of(names()[i]),
        names()[i] == names()[j] ==> i == j,
{
    names_placed(i);
    names_placed(j);
}

/// No debug-only flag has the name of a play flag.
pub proof fn debug_only_names_are_no_play_names(name: Seq<char>)
    ensures
        !(play_names().contains(name) && debug_names().contains(name)),
{
    if play_names().contains(name) && debug_names().contains(name) {
        let i = choose|i: int| 0 <= i < play_names().len() && play_names()[i] == name;
        let j = choose|j: int| 0 <= j < debug_names().len() && debug_names()[j] == name;
        assert(names()[i] == name && names()[6 + j] == name);
        flag_names_are_distinct(i, 6 + j);
    }
}

// ---------------------------------------------------------------------------
// Environment
// ---------------------------------------------------------------------------

/// Value of an environment variable.
#[derive(Debug)]
pub enum EnvValue {
    /// Unicode text.
    Text(String),
    /// Bytes that are no Unicode text. The variable is set, but reads as absent.
    Opaque,
}

/// One environment variable.
#[derive(Debug)]
pub struct EnvVar {
    pub name: String,
    pub value: EnvValue,
}

/// Snapshot of the process environment, and the kind of build that reads it.
#[derive(Debug)]
pub struct Env {
    /// Whether this build reads the debug-only flags.
    pub debug_only: bool,
    /// Variables in environment order. The first of a name counts.
    pub vars: Vec<EnvVar>,
}

/// Value of the first variable with this name.
pub open spec fn lookup(vars: Seq<EnvVar>, name: Seq<char>) -> Option<EnvValue>
    decreases vars.len(),
{
    if vars.len() == 0 {
        None
    } else if vars[0].name@ == name {
        Some(vars[0].value)
    } else {
        lookup(vars.drop_first(), name)
    }
}

/// Text in an optional string.
pub open spec fn text_of(s: Option<String>) -> Option<Seq<char>> {
    match s {
        Some(s) => Some(s@),
        None => None,
    }
}

impl Env {
    /// Whether a variable is set, to whatever bytes.
    pub open spec fn is_set(&self, name: Seq<char>) -> bool {
        lookup(self.vars@, name) is Some
    }

    /// Text of a variable that is set to Unicode text.
    pub open spec fn text(&self, name: Seq<char>) -> Option<Seq<char>> {
        match lookup(self.vars@, name) {
            Some(EnvValue::Text(s)) => Some(s@),
            _ => None,
        }
    }

    /// Whether a debug-only flag is set and read by this build.
    pub open spec fn debug_is_set(&self, name: Seq<char>) -> bool {
        self.debug_only && self.is_set(name)
    }

    /// Text of a debug-only flag that this build reads.
    pub open spec fn debug_text(&self, name: Seq<char>) -> Option<Seq<char>> {
        if self.debug_only {
            self.text(name)
        } else {
            None
        }
    }

    fn find(&self, name: &str) -> (r: Option<&EnvValue>)
        ensures
            match r {
                Some(v) => lookup(self.vars@, name@) == Some(*v),
                None => lookup(self.vars@, name@) is None,
            },
    {
        let mut i: usize = 0;
        assert(self.vars@.skip(0) =~= self.vars@);
        while i < self.vars.len()
            invariant
                i <= self.vars.len(),
                lookup(self.vars@, name@) == lookup(self.vars@.skip(i as int), name@),
            decreases self.vars.len() - i,
        {
            assert(self.vars@.skip(i as int)[0] == self.vars[i as int]);
            assert(self.vars@.skip(i as int).drop_first() =~= self.vars@.skip(i + 1));
            if same_text(self.vars[i].name.as_str(), name) {
                return Some(&self.vars[i].value);
            }
            i += 1;
        }
        None
    }
}

/// A spelling that switches a flag off.
pub open spec fn disabled(value: Seq<char>) -> bool {
    value == "0"@ || value == "false"@ || value == "off"@
}

fn is_disabled(value: &str) -> (r: bool)
    ensures
        r == disabled(value@),
{
    same_text(value, "0") || same_text(value, "false") || same_text(value, "off")
}

/// Whether a flag with this text is on. `absent` counts where it has none.
pub open spec fn enabled_or(value: Option<Seq<char>>, absent: bool) -> bool {
    match value {
        Some(value) => !disabled(value),
        None => absent,
    }
}

/// Number that the text of a flag denotes.
pub open spec fn number(value: Option<Seq<char>>, max: nat) -> Option<nat> {
    match value {
        Some(value) => text::parsed(value, max),
        None => None,
    }
}

/// Number in an optional `u32`.
pub open spec fn nat_of_u32(n: Option<u32>) -> Option<nat> {
    match n {
        Some(n) => Some(n as nat),
        None => None,
    }
}

/// Number in an optional `u64`.
pub open spec fn nat_of_u64(n: Option<u64>) -> Option<nat> {
    match n {
        Some(n) => Some(n as nat),
        None => None,
    }
}

// ---------------------------------------------------------------------------
// Toggle (`auto` | `on` | `off`)
// ---------------------------------------------------------------------------

#[derive(Clone, Copy, Debug, PartialEq, Eq, Structural)]
pub enum Toggle {
    Auto,
    On,
    Off,
}

/// What a tri-state text stands for.
pub open spec fn toggle_of(value: Seq<char>) -> Option<Toggle> {
    if value == "auto"@ {
        Some(Toggle::Auto)
    } else if value == "on"@ {
        Some(Toggle::On)
    } else if value == "off"@ {
        Some(Toggle::Off)
    } else {
        None
    }
}

/// Parse a standardized tri-state path flag.
pub fn parse_toggle(value: &str) -> (r: Result<Toggle, &'static str>)
    ensures
        match toggle_of(value@) {
            Some(toggle) => r == Ok::<Toggle, &'static str>(toggle),
            None => r matches Err(message) && message@ == "must be auto, on, or off"@,
        },
{
    if same_text(value, "auto") {
        Ok(Toggle::Auto)
    } else if same_text(value, "on") {
        Ok(Toggle::On)
    } else if same_text(value, "off") {
        Ok(Toggle::Off)
    } else {
        Err("must be auto, on, or off")
    }
}

/// Debug-only tri-state. `None` in playable builds (treat as `Auto`).
pub fn debug_toggle(env: &Env, name: &str) -> (r: Option<Result<Toggle, &'static str>>)
    ensures
        match env.debug_text(name@) {
            None => r is None,
            Some(value) => match toggle_of(value) {
                Some(toggle) => r == Some(Ok::<Toggle, &'static str>(toggle)),
                None => r matches Some(Err(message)) && message@ == "must be auto, on, or off"@,
            },
        },
{
    match debug_var(env, name) {
        Some(value) => Some(parse_toggle(value.as_str())),
        None => None,
    }
}

// ---------------------------------------------------------------------------
// Play accessors (every build)
// ---------------------------------------------------------------------------

/// Read a play flag. Returns `None` when unset.
pub fn play_var(env: &Env, name: &str) -> (r: Option<String>)
    ensures
        text_of(r) == env.text(name@),
{
    match env.find(name) {
        Some(value) => match value {
            EnvValue::Text(s) => Some(s.clone()),
            EnvValue::Opaque => None,
        },
        None => None,
    }
}

/// Read a play flag as it is set (presence checks, values that are no text).
pub fn play_var_os<'a>(env: &'a Env, name: &str) -> (r: Option<&'a EnvValue>)
    ensures
        match r {
            Some(value) => lookup(env.vars@, name@) == Some(*value),
            None => !env.is_set(name@),
        },
{
    env.find(name)
}

/// `true` when the flag is set and not `0` / `false` / `off`.
pub fn play_enabled(env: &Env, name: &str) -> (r: bool)
    ensures
        r == enabled_or(env.text(name@), false),
{
    play_enabled_or(env, name, false)
}

/// `true` unless the flag is set to `0` / `false` / `off`.
/// Used for defaults that stay on when the flag is absent.
pub fn play_enabled_or(env: &Env, name: &str, default: bool) -> (r: bool)
    ensures
        r == enabled_or(env.text(name@), default),
{
    match play_var(env, name) {
        None => default,
        Some(value) => !is_disabled(value.as_str()),
    }
}

/// Decimal play flag.
pub fn play_u32(env: &Env, name: &str) -> (r: Option<u32>)
    ensures
        nat_of_u32(r) == number(env.text(name@), u32::MAX as nat),
{
    match play_var(env, name) {
        Some(value) => parse_u32(value.as_str()),
        None => None,
    }
}

/// Decimal play flag.
pub fn play_u64(env: &Env, name: &str) -> (r: Option<u64>)
    ensures
        nat_of_u64(r) == number(env.text(name@), u64::MAX as nat),
{
    match play_var(env, name) {
        Some(value) => parse_u64(value.as_str()),
        None => None,
    }
}

// ---------------------------------------------------------------------------
// Debug-only accessors (no effect in playable builds)
// ---------------------------------------------------------------------------

/// Read a debug-only flag. Always `None` in playable builds, which never
/// observe quality or diagnostic overrides.
pub fn debug_var(env: &Env, name: &str) -> (r: Option<String>)
    ensures
        text_of(r) == env.debug_text(name@),
{
    if env.debug_only {
        play_var(env, name)
    } else {
        None
    }
}

/// Presence check for a debug-only flag. Always `None` in playable builds.
pub fn debug_var_os<'a>(env: &'a Env, name: &str) -> (r: Option<&'a EnvValue>)
    ensures
        match r {
            Some(value) => env.debug_only && lookup(env.vars@, name@) == Some(*value),
            None => !env.debug_is_set(name@),
        },
{
    if env.debug_only {
        play_var_os(env, name)
    } else {
        None
    }
}

/// `true` when a debug-only flag is set and not `0` / `false` / `off`.
/// Always `false` in playable builds.
pub fn debug_enabled(env: &Env, name: &str) -> (r: bool)
    ensures
        r == enabled_or(env.debug_text(name@), false),
{
    match debug_var(env, name) {
        None => false,
        Some(value) => !is_disabled(value.as_str()),
    }
}

/// Decimal debug-only flag.
pub fn debug_u32(env: &Env, name: &str) -> (r: Option<u32>)
    ensures
        nat_of_u32(r) == number(env.debug_text(name@), u32::MAX as nat),
{
    match debug_var(env, name) {
        Some(value) => parse_u32(value.as_str()),
        None => None,
    }
}

/// Decimal debug-only flag.
pub fn debug_u64(env: &Env, name: &str) -> (r: Option<u64>)
    ensures
        nat_of_u64(r) == number(env.debug_text(name@), u64::MAX as nat),
{
    match debug_var(env, name) {
        Some(value) => parse_u64(value.as_str()),
        None => None,
    }
}

// ---------------------------------------------------------------------------
// Resolved policy helpers
// ---------------------------------------------------------------------------

/// Samples that a debug-only override asks for.
pub open spec fn sample_override(env: &Env) -> Option<nat> {
    number(env.debug_text(IBL_SAMPLES@), u32::MAX as nat)
}

/// Samples for a quality preset, after the override.
pub open spec fn ibl_sample_count(env: &Env, preset: u32) -> nat {
    match sample_override(env) {
        Some(samples) => samples,
        None => preset as nat,
    }
}

/// IBL samples for a quality preset. The override is debug-only; playable
/// builds always use the preset value. An override of zero is no count.
pub fn ibl_samples(env: &Env, preset: u32) -> (r: u32)
    requires
        sample_override(env) != Some(0nat),
    ensures
        r == ibl_sample_count(env, preset),
{
    match debug_u32(env, IBL_SAMPLES) {
        Some(samples) => samples,
        None => preset,
    }
}

/// Geometry-only burst passes, after the override.
pub open spec fn burst_count(env: &Env, default: u32) -> nat {
    match number(env.debug_text(BURST@), u32::MAX as nat) {
        Some(n) => if n < 1 {
            1
        } else if n > 256 {
            256
        } else {
            n
        },
        None => if env.debug_only {
            default as nat
        } else {
            1
        },
    }
}

/// Geometry-only burst pass count. Always 1 in playable builds.
pub fn render_burst(env: &Env, default: u32) -> (r: u32)
    ensures
        r == burst_count(env, default),
{
    match debug_u32(env, BURST) {
        Some(value) => if value < 1 {
            1
        } else if value > 256 {
            256
        } else {
            value
        },
        None => if env.debug_only {
            default
        } else {
            1
        },
    }
}

/// Whether presents wait for the display.
pub open spec fn pacing_enabled(env: &Env, enabled_without_flag: bool) -> bool {
    match env.debug_text(PACING@) {
        None => enabled_without_flag,
        Some(value) => value != "off"@,
    }
}

/// Display pacing in play mode. `EXPLORA_PACING=off` is debug-only.
pub fn display_pacing(env: &Env, enabled_without_flag: bool) -> (r: bool)
    ensures
        r == pacing_enabled(env, enabled_without_flag),
{
    match debug_var(env, PACING) {
        None => enabled_without_flag,
        Some(value) => !same_text(value.as_str(), "off"),
    }
}

/// Opt-in GPU vegetation cull path. Always off in playable builds.
pub fn gpu_vegetation(env: &Env) -> (r: bool)
    ensures
        r == enabled_or(env.debug_text(GPU_VEGETATION@), false),
{
    debug_enabled(env, GPU_VEGETATION)
}

/// Exhaust/contrail FX. Always on in playable builds.
pub fn fx_enabled(env: &Env) -> (r: bool)
    ensures
        r == enabled_or(env.debug_text(FX@), true),
{
    match debug_var(env, FX) {
        None => true,
        Some(value) => !is_disabled(value.as_str()),
    }
}

/// Forced burner for screenshot/benchmark helpers. Always false in playable builds.
pub fn force_boost(env: &Env) -> (r: bool)
    ensures
        r == env.debug_is_set(BOOST@),
{
    debug_var_os(env, BOOST).is_some()
}

/// Forced hard bank for screenshot/benchmark helpers.
pub fn force_bank(env: &Env) -> (r: bool)
    ensures
        r == env.debug_is_set(BANK@),
{
    debug_var_os(env, BANK).is_some()
}

/// Sim freeze for measurement. Always false in playable builds.
pub fn frozen(env: &Env) -> (r: bool)
    ensures
        r == env.debug_is_set(FREEZE@),
{
    debug_var_os(env, FREEZE).is_some()
}

/// Freeze animation pose only. True when `frozen()` or the pose flag is set.
pub fn freeze_pose(env: &Env) -> (r: bool)
    ensures
        r == (env.debug_is_set(FREEZE@) || env.debug_is_set(FREEZE_POSE@)),
{
    frozen(env) || debug_var_os(env, FREEZE_POSE).is_some()
}

/// Benchmark JSON path. Only written when the flag is set (debug-only).
pub fn bench_json(env: &Env) -> (r: Option<String>)
    ensures
        text_of(r) == env.debug_text(BENCH_JSON@),
{
    debug_var(env, BENCH_JSON)
}

/// Screenshot path. Debug-only.
pub fn shot_path(env: &Env) -> (r: Option<String>)
    ensures
        text_of(r) == env.debug_text(SHOT@),
{
    debug_var(env, SHOT)
}

/// Frames to take screenshots of.
pub open spec fn shot_frame_list(env: &Env) -> Seq<u64> {
    match env.debug_text(SHOT_FRAME@) {
        Some(value) => text::field_numbers(text::fields(value)),
        None => seq![120u64],
    }
}

/// Screenshot frame list. Defaults to `[120]` when unset.
pub fn shot_frames(env: &Env) -> (r: Vec<u64>)
    ensures
        r@ == shot_frame_list(env),
{
    match debug_var(env, SHOT_FRAME) {
        Some(value) => parse_list(value.as_str()),
        None => vec![120],
    }
}

/// Audio mute flag: `EXPLORA_AUDIO=0` disables the worker (play flag).
pub fn audio_requested(env: &Env) -> (r: bool)
    ensures
        r == (env.text(AUDIO@) != Some("0"@)),
{
    match play_var(env, AUDIO) {
        Some(value) => !same_text(value.as_str(), "0"),
        None => true,
    }
}

/// HUD visible at startup. `EXPLORA_HUD=0` starts hidden (play flag).
pub fn hud_visible(env: &Env) -> (r: bool)
    ensures
        r == (env.text(HUD@) != Some("0"@)),
{
    match play_var(env, HUD) {
        Some(value) => !same_text(value.as_str(), "0"),
        None => true,
    }
}

/// Start windowed when `EXPLORA_WINDOWED` is set (play flag).
pub fn start_windowed(env: &Env) -> (r: bool)
    ensures
        r == env.is_set(WINDOWED@),
{
    play_var_os(env, WINDOWED).is_some()
}

/// ALSA device name (play flag).
pub fn audio_device(env: &Env) -> (r: String)
    ensures
        r@ == (match env.text(AUDIO_DEVICE@) {
            Some(name) => name,
            None => "default"@,
        }),
{
    match play_var(env, AUDIO_DEVICE) {
        Some(name) => name,
        None => "default".to_owned(),
    }
}

// ---------------------------------------------------------------------------
// What the two classes promise
// ---------------------------------------------------------------------------

/// A playable build never observes a debug-only flag: whatever the
/// environment holds, every debug-only helper gives its default, and there is
/// one pass per present.
pub proof fn playable_builds_ignore_debug_flags(env: &Env, name: Seq<char>)
    requires
        !env.debug_only,
    ensures
        env.debug_text(name) is None,
        !env.debug_is_set(name),
        forall|preset: u32| #[trigger] ibl_sample_count(env, preset) == preset,
        forall|default: u32| #[trigger] burst_count(env, default) == 1,
        forall|enabled: bool| #[trigger] pacing_enabled(env, enabled) == enabled,
        shot_frame_list(env) == seq![120u64],
{
}

/// Play flags read the same in every kind of build.
pub proof fn play_flags_ignore_the_build(a: &Env, b: &Env, name: Seq<char>)
    requires
        a.vars@ == b.vars@,
    ensures
        a.text(name) == b.text(name),
        a.is_set(name) == b.is_set(name),
{
}

/// A variable that is set to bytes that are no text is present, but has no
/// text.
pub proof fn opaque_values_are_only_present(env: &Env, name: Seq<char>)
    requires
        lookup(env.vars@, name) == Some(EnvValue::Opaque),
    ensures
        env.is_set(name),
        env.text(name) is None,
{
}

/// The first variable of a name counts: it is found where it stands, and
/// nothing is found where none stands.
pub proof fn the_first_variable_counts(vars: Seq<EnvVar>, name: Seq<char>)
    ensures
        match lookup(vars, name) {
            Some(value) => exists|i: int|
                0 <= i < vars.len() && (#[trigger] vars[i]).name@ == name && vars[i].value == value
                    && forall|k: int| 0 <= k < i ==> (#[trigger] vars[k]).name@ != name,
            None => forall|k: int| 0 <= k < vars.len() ==> (#[trigger] vars[k]).name@ != name,
        },
    decreases vars.len(),
{
    if vars.len() > 0 && vars[0].name@ != name {
        let rest = vars.drop_first();
        the_first_variable_counts(rest, name);
        assert forall|k: int| 0 <= k < rest.len() implies #[trigger] rest[k] == vars[k + 1] by {}
        match lookup(vars, name) {
            Some(value) => {
                let i = choose|i: int|
                    0 <= i < rest.len() && (#[trigger] rest[i]).name@ == name && rest[i].value
                        == value && forall|k: int|
                        0 <= k < i ==> (#[trigger] rest[k]).name@ != name;
                assert(vars[i + 1].name@ == name && vars[i + 1].value == value);
                assert forall|k: int| 0 <= k < i + 1 implies (#[trigger] vars[k]).name@ != name by {
                    if k > 0 {
                        assert(rest[k - 1] == vars[k]);
                    }
                }
            },
            None => {
                assert forall|k: int| 0 <= k < vars.len() implies (#[trigger] vars[k]).name@
                    != name by {
                    if k > 0 {
                        assert(rest[k - 1] == vars[k]);
                    }
                }
            },
        }
    }
}

/// A flag is off by one of three spellings, and by no other text: not by
/// nothing at all, and by no number but zero. Without a text it is what it was
/// set to be.
pub proof fn flags_are_off_by_three_spellings(value: Seq<char>, n: nat, absent: bool)
    ensures
        !enabled_or(Some("0"@), absent) && !enabled_or(Some("false"@), absent) && !enabled_or(
            Some("off"@),
            absent,
        ),
        !enabled_or(Some(value), absent) ==> value.len() == 1 || value.len() == 3 || value.len()
            == 5,
        enabled_or(Some(text::decimal(n)), absent) <==> n != 0,
        enabled_or(Some("on"@), absent),
        enabled_or(Some("true"@), absent),
        enabled_or(None, absent) == absent,
{
    reveal_strlit("0");
    reveal_strlit("false");
    reveal_strlit("off");
    reveal_strlit("on");
    reveal_strlit("true");
    text::decimal_denotes(n);
    text::decimals_are_unique(n, 0);
    assert(text::decimal(0) =~= "0"@);
    assert(text::is_digit(text::decimal(n)[0]));
    assert("false"@[0] == 'f' && "off"@[0] == 'o');
    assert("true"@[0] == 't');
    assert("on"@.len() == 2 && "true"@.len() == 4);
    assert("0"@.len() == 1 && "false"@.len() == 5 && "off"@.len() == 3);
}

/// The three states go by their words, and no other text is one.
pub proof fn toggles_go_by_their_words(value: Seq<char>)
    ensures
        toggle_of("auto"@) == Some(Toggle::Auto),
        toggle_of("on"@) == Some(Toggle::On),
        toggle_of("off"@) == Some(Toggle::Off),
        match toggle_of(value) {
            Some(Toggle::Auto) => value.len() == 4 && value[0] == 'a',
            Some(Toggle::On) => value.len() == 2 && value[0] == 'o',
            Some(Toggle::Off) => value.len() == 3 && value[0] == 'o',
            None => value != "auto"@ && value != "on"@ && value != "off"@,
        },
        disabled(value) && toggle_of(value) is Some ==> toggle_of(value) == Some(Toggle::Off),
{
    reveal_strlit("auto");
    reveal_strlit("on");
    reveal_strlit("off");
    reveal_strlit("0");
    reveal_strlit("false");
    assert("auto"@.len() == 4 && "on"@.len() == 2 && "off"@.len() == 3);
    assert("0"@.len() == 1 && "false"@.len() == 5);
}

/// A number of passes that is asked for is taken as far as it lies between one
/// and 256, and otherwise brought to the nearer of the two. Where none is asked
/// for, the default stands. A number of samples is taken as it is.
pub proof fn overrides_are_taken(env: &Env, default: u32, n: nat)
    requires
        env.debug_only,
    ensures
        number(env.debug_text(BURST@), u32::MAX as nat) is None ==> burst_count(env, default)
            == default,
        number(env.debug_text(BURST@), u32::MAX as nat) == Some(n) && 1 <= n <= 256 ==> burst_count(
            env,
            default,
        ) == n,
        number(env.debug_text(BURST@), u32::MAX as nat) == Some(n) && n > 256 ==> burst_count(
            env,
            default,
        ) == 256,
        number(env.debug_text(BURST@), u32::MAX as nat) == Some(0nat) ==> burst_count(env, default)
            == 1,
        number(env.debug_text(IBL_SAMPLES@), u32::MAX as nat) == Some(n) ==> ibl_sample_count(
            env,
            default,
        ) == n,
        number(env.debug_text(IBL_SAMPLES@), u32::MAX as nat) is None ==> ibl_sample_count(
            env,
            default,
        ) == default,
{
}

/// Pacing is switched off by one word alone; any other text switches it on,
/// and without one it is what it would be.
pub proof fn pacing_is_switched_by_its_flag(env: &Env, enabled: bool)
    requires
        env.debug_only,
    ensures
        env.text(PACING@) is None ==> pacing_enabled(env, enabled) == enabled,
        env.text(PACING@) == Some("off"@) ==> !pacing_enabled(env, enabled),
        env.text(PACING@) matches Some(value) ==> (pacing_enabled(env, enabled) <==> value
            != "off"@),
{
}

/// A build that reads debug-only flags reads them like play flags.
pub proof fn debug_builds_read_everything(env: &Env, name: Seq<char>)
    requires
        env.debug_only,
    ensures
        env.debug_text(name) == env.text(name),
        env.debug_is_set(name) == env.is_set(name),
        env.text(name) is Some ==> env.is_set(name),
        env.text(SHOT_FRAME@) matches Some(value) ==> shot_frame_list(env) == text::field_numbers(
            text::fields(value),
        ),
{
}

/// A text that denotes a number is read as that number, and nothing is read
/// where there is no text.
pub proof fn numbers_are_read(n: nat, max: nat)
    requires
        n <= max,
    ensures
        number(Some(text::decimal(n)), max) == Some(n),
        number(None, max) is None,
{
    text::parsing_undoes_rendering(n, max);
}

/// Each flag is read under the name that it is documented by.
pub proof fn flags_go_by_their_names()
    ensures
        WINDOWED@ == "EXPLORA_WINDOWED"@,
        VOLUME@ == "EXPLORA_VOLUME"@,
        AUDIO@ == "EXPLORA_AUDIO"@,
        AUDIO_DEVICE@ == "EXPLORA_AUDIO_DEVICE"@,
        HUD@ == "EXPLORA_HUD"@,
        WIND@ == "EXPLORA_WIND"@,
        QUALITY@ == "EXPLORA_QUALITY"@,
        IBL_SAMPLES@ == "EXPLORA_IBL_SAMPLES"@,
        BURST@ == "EXPLORA_BURST"@,
        RT_SHADOWS@ == "EXPLORA_RT_SHADOWS"@,
        MESH_SHADERS@ == "EXPLORA_MESH_SHADERS"@,
        GPU_VEGETATION@ == "EXPLORA_GPU_VEGETATION"@,
        PACING@ == "EXPLORA_PACING"@,
        PRESENT@ == "EXPLORA_PRESENT"@,
        PRESENT_FEEDBACK@ == "EXPLORA_PRESENT_FEEDBACK"@,
        FX@ == "EXPLORA_FX"@,
        NO_GPU@ == "EXPLORA_NO_GPU"@,
        GPU_READBACK_EVERY@ == "EXPLORA_GPU_READBACK_EVERY"@,
        GPU_SPIKE_US@ == "EXPLORA_GPU_SPIKE_US"@,
        FREEZE@ == "EXPLORA_FREEZE"@,
        FREEZE_POSE@ == "EXPLORA_FREEZE_POSE"@,
        BOOST@ == "EXPLORA_BOOST"@,
        BANK@ == "EXPLORA_BANK"@,
        PITCH@ == "EXPLORA_PITCH"@,
        SHOT@ == "EXPLORA_SHOT"@,
        SHOT_FRAME@ == "EXPLORA_SHOT_FRAME"@,
        BENCH_JSON@ == "EXPLORA_BENCH_JSON"@,
        START_X@ == "EXPLORA_X"@,
        START_Z@ == "EXPLORA_Z"@,
        START_ALT@ == "EXPLORA_ALT"@,
        START_HEADING@ == "EXPLORA_HEADING"@,
{
}

} // verus!
