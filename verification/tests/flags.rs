use explora::flags::{
    audio_device, audio_requested, bench_json, debug_enabled, debug_toggle, debug_u32, debug_u64,
    debug_var, debug_var_os, display_pacing, force_bank, force_boost, freeze_pose, frozen,
    fx_enabled, gpu_vegetation, hud_visible, ibl_samples, parse_toggle, play_enabled,
    play_enabled_or, play_u32, play_u64, play_var, play_var_os, render_burst, shot_frames,
    shot_path, start_windowed, Env, EnvValue, EnvVar, Toggle, AUDIO, AUDIO_DEVICE, BANK,
    BENCH_JSON, BOOST, BURST, FREEZE, FREEZE_POSE, FX, GPU_READBACK_EVERY, GPU_SPIKE_US,
    GPU_VEGETATION, HUD, IBL_SAMPLES, MESH_SHADERS, NO_GPU, PACING, PITCH, PRESENT,
    PRESENT_FEEDBACK, QUALITY, RT_SHADOWS, SHOT, SHOT_FRAME, START_ALT, START_HEADING, START_X,
    START_Z, VOLUME, WIND, WINDOWED,
};

fn env(debug_only: bool, vars: &[(&str, &str)]) -> Env {
    Env {
        debug_only,
        vars: vars
            .iter()
            .map(|(name, value)| EnvVar {
                name: name.to_string(),
                value: EnvValue::Text(value.to_string()),
            })
            .collect(),
    }
}

fn opaque(debug_only: bool, name: &str) -> Env {
    Env { debug_only, vars: vec![EnvVar { name: name.to_string(), value: EnvValue::Opaque }] }
}

#[test]
fn toggles_accept_only_standard_spellings() {
    assert_eq!(parse_toggle("auto"), Ok(Toggle::Auto));
    assert_eq!(parse_toggle("on"), Ok(Toggle::On));
    assert_eq!(parse_toggle("off"), Ok(Toggle::Off));
    assert!(parse_toggle("true").is_err());
    assert!(parse_toggle("").is_err());
}

#[test]
fn debug_only_names_are_not_play_names() {
    let play = [WINDOWED, VOLUME, AUDIO, AUDIO_DEVICE, HUD, WIND];
    let debug = [
        QUALITY, IBL_SAMPLES, BURST, RT_SHADOWS, MESH_SHADERS, GPU_VEGETATION, PACING, PRESENT,
        PRESENT_FEEDBACK, FX, NO_GPU, GPU_READBACK_EVERY, GPU_SPIKE_US, FREEZE, FREEZE_POSE, BOOST,
        BANK, PITCH, SHOT, SHOT_FRAME, BENCH_JSON, START_X, START_Z, START_ALT, START_HEADING,
    ];
    for name in play {
        assert!(name.starts_with("EXPLORA_"), "{name}");
    }
    for name in debug {
        assert!(name.starts_with("EXPLORA_"), "{name}");
        assert!(!play.contains(&name), "{name} must stay DEBUG_ONLY");
    }
    // A debug name is read exactly in builds that are marked so.
    for debug_only in [false, true] {
        let e = env(debug_only, &[(BURST, "4")]);
        assert_eq!(debug_u32(&e, BURST).is_some(), debug_only);
    }
}

#[test]
fn ibl_samples_prefers_positive_override_else_preset() {
    assert_eq!(ibl_samples(&env(false, &[]), 16), 16);
    assert_eq!(ibl_samples(&env(false, &[(IBL_SAMPLES, "64")]), 16), 16);
    assert_eq!(ibl_samples(&env(true, &[]), 16), 16);
    assert_eq!(ibl_samples(&env(true, &[(IBL_SAMPLES, "64")]), 16), 64);
}

#[test]
fn playable_builds_never_read_debug_flags() {
    let vars = [
        (BURST, "9"), (FX, "0"), (BOOST, "1"), (BANK, "1"), (FREEZE, "1"), (FREEZE_POSE, "1"),
        (SHOT, "a.ppm"), (SHOT_FRAME, "7"), (BENCH_JSON, "b.json"), (GPU_VEGETATION, "1"),
        (RT_SHADOWS, "off"),
    ];
    let e = env(false, &vars);
    assert_eq!(debug_var(&e, BURST), None);
    assert!(debug_var_os(&e, BURST).is_none());
    assert_eq!(debug_u64(&e, BURST), None);
    assert!(!debug_enabled(&e, GPU_VEGETATION));
    assert!(debug_toggle(&e, RT_SHADOWS).is_none());
    assert_eq!(render_burst(&e, 1), 1);
    assert_eq!(render_burst(&e, 4), 1);
    assert_eq!(render_burst(&env(false, &[]), 4), 1);
    assert!(fx_enabled(&e));
    assert!(!force_boost(&e) && !force_bank(&e) && !frozen(&e) && !freeze_pose(&e));
    assert!(!gpu_vegetation(&e));
    assert_eq!(shot_path(&e), None);
    assert_eq!(bench_json(&e), None);
    assert_eq!(shot_frames(&e), vec![120]);

    let e = env(true, &vars);
    assert_eq!(debug_var(&e, BURST).as_deref(), Some("9"));
    assert!(debug_var_os(&e, BURST).is_some());
    assert_eq!(debug_u64(&e, BURST), Some(9));
    assert!(debug_enabled(&e, GPU_VEGETATION));
    assert_eq!(debug_toggle(&e, RT_SHADOWS), Some(Ok(Toggle::Off)));
    assert_eq!(render_burst(&e, 1), 9);
    assert!(!fx_enabled(&e));
    assert!(force_boost(&e) && force_bank(&e) && frozen(&e) && freeze_pose(&e));
    assert!(gpu_vegetation(&e));
    assert_eq!(shot_path(&e).as_deref(), Some("a.ppm"));
    assert_eq!(bench_json(&e).as_deref(), Some("b.json"));
    assert_eq!(shot_frames(&e), vec![7]);
}

#[test]
fn burst_is_clamped() {
    assert_eq!(render_burst(&env(true, &[(BURST, "0")]), 1), 1);
    assert_eq!(render_burst(&env(true, &[(BURST, "256")]), 1), 256);
    assert_eq!(render_burst(&env(true, &[(BURST, "1000")]), 1), 256);
    assert_eq!(render_burst(&env(true, &[(BURST, "many")]), 3), 3);
}

#[test]
fn screenshot_frames_are_a_list() {
    assert_eq!(shot_frames(&env(true, &[(SHOT_FRAME, "3, 14 ,159")])), vec![3, 14, 159]);
    assert_eq!(shot_frames(&env(true, &[(SHOT_FRAME, "x,5")])), vec![5]);
    assert_eq!(shot_frames(&env(true, &[(SHOT_FRAME, "")])), Vec::<u64>::new());
}

#[test]
fn play_flags_do_not_depend_on_the_build() {
    for debug_only in [false, true] {
        let none = env(debug_only, &[]);
        assert!(audio_requested(&none) && hud_visible(&none) && !start_windowed(&none));
        assert_eq!(audio_device(&none), "default");
        let e = env(
            debug_only,
            &[(AUDIO, "0"), (HUD, "0"), (WINDOWED, ""), (AUDIO_DEVICE, "hw:1"), (VOLUME, "12")],
        );
        assert!(!audio_requested(&e) && !hud_visible(&e) && start_windowed(&e));
        assert_eq!(audio_device(&e), "hw:1");
        assert_eq!(play_var(&e, VOLUME).as_deref(), Some("12"));
        assert_eq!(play_u32(&e, VOLUME), Some(12));
        assert_eq!(play_u64(&e, VOLUME), Some(12));
        assert_eq!(play_u32(&e, AUDIO_DEVICE), None);
    }
}

#[test]
fn enabled_means_anything_but_the_off_spellings() {
    for (value, enabled) in
        [("1", true), ("on", true), ("", true), ("0", false), ("false", false), ("off", false)]
    {
        let e = env(true, &[(FX, value)]);
        assert_eq!(play_enabled(&e, FX), enabled, "{value}");
        assert_eq!(play_enabled_or(&e, FX, !enabled), enabled, "{value}");
    }
    assert!(!play_enabled(&env(true, &[]), FX));
    assert!(play_enabled_or(&env(true, &[]), FX, true));
    assert!(!play_enabled_or(&env(true, &[]), FX, false));
}

#[test]
fn unreadable_values_are_only_present() {
    let e = opaque(true, FREEZE);
    assert!(frozen(&e));
    assert_eq!(play_var(&e, FREEZE), None);
    assert!(matches!(play_var_os(&e, FREEZE), Some(EnvValue::Opaque)));
    assert!(debug_toggle(&e, FREEZE).is_none());
}

#[test]
fn malformed_toggles_are_reported() {
    let e = env(true, &[(RT_SHADOWS, "yes")]);
    assert_eq!(debug_toggle(&e, RT_SHADOWS), Some(Err("must be auto, on, or off")));
}

#[test]
fn pacing_can_be_switched_off() {
    assert!(display_pacing(&env(true, &[]), true));
    assert!(!display_pacing(&env(true, &[]), false));
    assert!(!display_pacing(&env(true, &[(PACING, "off")]), true));
    // A playable build does not see the switch.
    assert!(display_pacing(&env(false, &[(PACING, "off")]), true));
}
