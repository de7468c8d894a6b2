use explora::frame_budget::Progress;
use explora::frame_loop::{
    bench_step, describe_device, describe_draw, describe_run, forced_controls, plan_frame,
    shader_hash, viewport, AfterDraw, BenchStep, DeviceFacts, DrawFacts, FramePlan, Freeze,
    LoopStats, Pacing, RunFacts, Viewport,
};
use explora::gfx::{Extent, PresentMode};
use explora::hud::{AUDIO, DEFAULT, PAUSED, RESET};
use explora::input::Controls;
use explora::swap::DrawResult;

#[test]
fn frames_do_what_the_display_state_says() {
    let free = Freeze { frozen: false, freeze_pose: false };
    let plan = |reset, paused, moving| FramePlan {
        reset,
        paused,
        step_pose: true,
        step_effects: true,
        interpolate: moving,
        camera_moves: moving,
        audible: moving,
    };
    assert_eq!(plan_frame(DEFAULT, free), plan(false, false, true));
    assert_eq!(plan_frame(DEFAULT | RESET, free), plan(true, false, true));
    assert_eq!(plan_frame(DEFAULT | PAUSED, free), plan(false, true, false));
    assert!(!plan_frame(DEFAULT & !AUDIO, free).audible);
    let still = plan_frame(DEFAULT, Freeze { frozen: true, freeze_pose: true });
    assert!(!still.step_pose && !still.step_effects && !still.camera_moves && !still.audible);
    let posed = plan_frame(DEFAULT, Freeze { frozen: false, freeze_pose: true });
    assert!(!posed.step_pose && posed.step_effects && !posed.interpolate && posed.camera_moves);
}

#[test]
fn forced_controls_override_the_keys() {
    let c = Controls { pitch: 1, bank: -1, yaw: 0, boost: false };
    assert_eq!(forced_controls(c, false, false), c);
    assert_eq!(forced_controls(c, true, true), Controls { bank: 1, boost: true, ..c });
}

#[test]
fn windows_are_followed() {
    let e = |width, height| Extent { width, height };
    assert_eq!(viewport(e(0, 5), e(4, 5)), Viewport::Hidden);
    assert_eq!(viewport(e(4, 6), e(4, 5)), Viewport::Resized);
    assert_eq!(viewport(e(4, 5), e(4, 5)), Viewport::Fits);
}

#[test]
fn draws_are_counted() {
    let mut stats = LoopStats::new();
    let shots = vec![2];
    assert_eq!(stats.after_draw(DrawResult::Skipped, true, &shots), AfterDraw::Nothing);
    assert_eq!(
        stats.after_draw(DrawResult::Presented(3), true, &shots),
        AfterDraw::Presented { shot: false }
    );
    assert_eq!(
        stats.after_draw(DrawResult::Presented(3), true, &shots),
        AfterDraw::Presented { shot: true }
    );
    assert_eq!(stats.after_draw(DrawResult::Rebuild, true, &shots), AfterDraw::Rebuild);
    let taken = stats.take();
    assert_eq!(taken, LoopStats { frames: 6, presents: 2, skipped: 1, presented_total: 2 });
    assert_eq!(stats, LoopStats { frames: 0, presents: 0, skipped: 0, presented_total: 2 });
    assert_eq!(
        stats.after_draw(DrawResult::Presented(1), false, &vec![3]),
        AfterDraw::Presented { shot: false }
    );
}

#[test]
fn benchmarks_step() {
    let step = |reset_stages, collect, finish| BenchStep { reset_stages, collect, finish };
    assert_eq!(bench_step(Progress::Started, 1), step(true, false, false));
    assert_eq!(bench_step(Progress::Measuring, 128), step(false, true, false));
    assert_eq!(bench_step(Progress::Complete, 1), step(false, true, true));
}

#[test]
fn pacing_gives_up_after_three_timeouts() {
    assert!(!Pacing::new(true, true).enabled);
    assert!(!Pacing::new(false, false).enabled);
    let mut pacing = Pacing::new(false, true);
    assert!(!pacing.waited(false));
    assert!(!pacing.waited(false));
    assert!(!pacing.waited(true));
    assert_eq!(pacing.strikes, 0);
    assert!(!pacing.waited(false));
    assert!(!pacing.waited(false));
    assert!(pacing.waited(false));
    assert!(!pacing.enabled);
}

#[test]
fn shader_fingerprints_are_polynomials() {
    assert_eq!(shader_hash(&[]), 0);
    assert_eq!(shader_hash(&[7]), 7);
    assert_eq!(shader_hash(&[7, 9]), 7 * 1099511628211 + 9);
    let mut h = 0u64;
    for b in b"plane shader" {
        h = h.wrapping_mul(1099511628211).wrapping_add(*b as u64);
    }
    assert_eq!(shader_hash(b"plane shader"), h);
}

#[test]
fn run_metadata_grows_from_device_to_run() {
    let device = describe_device(
        "High",
        &DeviceFacts {
            burst: 1,
            rt_shadows: true,
            queue_count: 2,
            display_timing: false,
            vendor_id: 4318,
            device_id: 10370,
            driver_version: 7,
        },
    );
    assert_eq!(
        device,
        "{\"quality\":\"High\",\"burst\":1,\"rt_shadows\":true,\"queue_count\":2,\"display_timing_supported\":false,\"scene_rendered\":true,\"gpu_vendor_id\":4318,\"gpu_device_id\":10370,\"driver_version\":7}"
    );
    let draw = describe_draw(
        &device,
        &DrawFacts {
            output: Extent { width: 1920, height: 1080 },
            scene: Extent { width: 960, height: 540 },
            present_mode: PresentMode::Mailbox,
        },
    );
    assert!(draw.ends_with(",\"driver_version\":7,\"width\":1920,\"height\":1080,\"scene_width\":960,\"scene_height\":540,\"present_mode\":\"MAILBOX\"}"));
    let run = describe_run(
        &draw,
        &RunFacts {
            ui: DEFAULT | RESET,
            audio_requested: true,
            force_boost: false,
            force_bank: true,
            frozen: false,
        },
        "1.5",
        None,
    );
    assert!(run.ends_with("\"present_mode\":\"MAILBOX\",\"hud_flags\":7,\"audio_requested\":true,\"wind\":1.5,\"force_boost\":false,\"force_bank\":true,\"force_pitch\":null,\"frozen\":false}"));
    let pitched = describe_run(
        "{}",
        &RunFacts {
            ui: 0,
            audio_requested: true,
            force_boost: true,
            force_bank: false,
            frozen: true,
        },
        "0",
        Some("-0.5"),
    );
    assert_eq!(
        pitched,
        "{,\"hud_flags\":0,\"audio_requested\":false,\"wind\":0,\"force_boost\":true,\"force_bank\":false,\"force_pitch\":-0.5,\"frozen\":true}"
    );
}
