use explora::flags::Toggle;
use explora::gfx::PresentMode::{Fifo, Immediate, Mailbox, Other};
use explora::gfx::{
    benchmark_target, choose_device, choose_format, choose_queues, find_argument,
    find_memory_type, image_count, is_spirv_blob, pick_present, pick_present_mode, readback_every,
    resolve_toggle, spv_words, swap_extent, wants_dedicated, BenchmarkError, Capabilities,
    DeviceInfo, Extension, Extent, Paths, PresentError, PresentMode, QueueError, QueueFamily,
    QueuePlan, StageReport, StageStats, SurfaceFormat, ToggleError, DEDICATE_ABOVE, NVIDIA_VENDOR,
};

fn args(list: &[&str]) -> Vec<String> {
    list.iter().map(|s| s.to_string()).collect()
}

#[test]
fn play_paces_to_the_display() {
    let all = vec![Other, Fifo, Mailbox, Immediate];
    assert_eq!(pick_present_mode(&all, true, None), Ok(Fifo));
    assert_eq!(pick_present_mode(&all, false, None), Ok(Immediate));
    assert_eq!(pick_present(&vec![Fifo, Mailbox], None), Ok(Mailbox));
    assert_eq!(pick_present(&vec![Fifo], None), Ok(Fifo));
    assert_eq!(pick_present(&all, Some("mailbox")), Ok(Mailbox));
    assert_eq!(pick_present(&all, Some("fifo")), Ok(Fifo));
    assert_eq!(pick_present(&all, Some("immediate")), Ok(Immediate));
    assert_eq!(pick_present(&vec![Fifo], Some("mailbox")), Err(PresentError::Unavailable));
    assert_eq!(pick_present(&all, Some("vsync")), Err(PresentError::Unknown));
    assert_eq!(pick_present_mode(&vec![PresentMode::Mailbox], true, None), Ok(Mailbox));
    // An explicit request overrides either path.
    assert_eq!(pick_present_mode(&all, true, Some("immediate")), Ok(Immediate));
    assert_eq!(pick_present_mode(&all, false, Some("fifo")), Ok(Fifo));
    assert_eq!(
        pick_present_mode(&vec![Fifo], true, Some("mailbox")),
        Err(PresentError::Unavailable)
    );
}

#[test]
fn the_first_fitting_memory_type_is_taken() {
    let types = vec![0b001, 0b110, 0b111, 0b110];
    assert_eq!(find_memory_type(&types, 0b1111, 0b110), Some(1));
    assert_eq!(find_memory_type(&types, 0b1101, 0b110), Some(2));
    assert_eq!(find_memory_type(&types, 0b1111, 0), Some(0));
    assert_eq!(find_memory_type(&types, 0b0001, 0b110), None);
    assert_eq!(find_memory_type(&types, 0, 0), None);
    assert_eq!(find_memory_type(&vec![], 0b1, 0), None);
}

#[test]
fn only_the_target_gpu_is_chosen() {
    let gpu = |discrete, vendor_id| DeviceInfo { discrete, vendor_id };
    assert_eq!(choose_device(&vec![]), None);
    assert_eq!(choose_device(&vec![gpu(false, NVIDIA_VENDOR), gpu(true, 0x1002)]), None);
    let two = vec![gpu(true, NVIDIA_VENDOR), gpu(true, 0x8086), gpu(true, NVIDIA_VENDOR)];
    assert_eq!(choose_device(&two), Some(2));
}

#[test]
fn queues_come_from_the_first_usable_family() {
    let q = |graphics, present, queue_count, timestamp_valid_bits| QueueFamily {
        graphics,
        present,
        queue_count,
        timestamp_valid_bits,
    };
    assert_eq!(choose_queues(&vec![q(true, false, 1, 64)]), Err(QueueError::NoFamily));
    assert_eq!(
        choose_queues(&vec![q(false, true, 8, 64), q(true, true, 16, 48), q(true, true, 1, 64)]),
        Ok(QueuePlan { family: 1, count: 2, present_queue: 1, timestamp_valid_bits: 48 })
    );
    assert_eq!(
        choose_queues(&vec![q(true, true, 1, 64)]),
        Ok(QueuePlan { family: 0, count: 1, present_queue: 0, timestamp_valid_bits: 64 })
    );
    assert_eq!(choose_queues(&vec![q(true, true, 1, 0)]), Err(QueueError::NoTimestamps));
    assert_eq!(choose_queues(&vec![q(true, true, 0, 64)]), Err(QueueError::NoQueue));
}

#[test]
fn toggles_resolve_against_the_device() {
    assert_eq!(resolve_toggle(None, true), Ok(true));
    assert_eq!(resolve_toggle(None, false), Ok(false));
    assert_eq!(resolve_toggle(Some(Ok(Toggle::Auto)), true), Ok(true));
    assert_eq!(resolve_toggle(Some(Ok(Toggle::Off)), true), Ok(false));
    assert_eq!(resolve_toggle(Some(Ok(Toggle::On)), true), Ok(true));
    assert_eq!(resolve_toggle(Some(Ok(Toggle::On)), false), Err(ToggleError::Unavailable));
    assert_eq!(resolve_toggle(Some(Err("no")), true), Err(ToggleError::Malformed));
}

fn everything() -> Capabilities {
    Capabilities {
        shading_rate_extension: true,
        shading_rate_feature: true,
        acceleration_extension: true,
        ray_query_extension: true,
        deferred_extension: true,
        acceleration_feature: true,
        ray_query_feature: true,
        buffer_address_feature: true,
        present_id_extension: true,
        present_wait_extension: true,
        present_id_feature: true,
        present_wait_feature: true,
        display_timing_extension: true,
    }
}

#[test]
fn paths_need_all_their_parts() {
    let all = everything();
    let paths = all.resolve(None, true).unwrap();
    assert_eq!(
        paths,
        Paths { shading_rate: true, ray_query: true, present_wait: true, display_timing: true }
    );
    assert_eq!(
        paths.extensions(),
        vec![
            Extension::Swapchain,
            Extension::FragmentShadingRate,
            Extension::AccelerationStructure,
            Extension::RayQuery,
            Extension::DeferredHostOperations,
            Extension::PresentId,
            Extension::PresentWait,
            Extension::DisplayTiming,
        ]
    );
    assert!(!all.resolve(None, false).unwrap().display_timing);
    let poor = Capabilities {
        shading_rate_feature: false,
        buffer_address_feature: false,
        present_id_feature: false,
        ..all
    };
    let paths = poor.resolve(None, false).unwrap();
    assert_eq!(paths.extensions(), vec![Extension::Swapchain]);
    assert_eq!(poor.resolve(Some(Ok(Toggle::On)), false), Err(ToggleError::Unavailable));
}

#[test]
fn swapchains_follow_the_surface() {
    let f = |format, color_space| SurfaceFormat { format, color_space };
    assert_eq!(choose_format(&vec![f(1, 0), f(50, 0)], f(50, 0)), f(50, 0));
    assert_eq!(choose_format(&vec![f(1, 0), f(50, 1)], f(50, 0)), f(1, 0));
    let e = |width, height| Extent { width, height };
    assert_eq!(swap_extent(e(1920, 1080), e(1, 1), e(4096, 4096)), e(1920, 1080));
    assert_eq!(swap_extent(e(1, 9000), e(64, 64), e(4096, 4096)), e(64, 4096));
    assert_eq!(image_count(2, 0), 8);
    assert_eq!(image_count(2, 3), 3);
    assert_eq!(image_count(9, 16), 9);
    assert!(wants_dedicated(DEDICATE_ABOVE) && !wants_dedicated(DEDICATE_ABOVE - 1));
}

#[test]
fn benchmarks_are_asked_for_by_argument() {
    assert_eq!(benchmark_target(&args(&["explora"])), Ok(None));
    assert_eq!(benchmark_target(&args(&["explora", "--benchmark", "300"])), Ok(Some(300)));
    assert_eq!(
        benchmark_target(&args(&["explora", "--benchmark"])),
        Err(BenchmarkError::MissingCount)
    );
    assert_eq!(
        benchmark_target(&args(&["explora", "--benchmark", "0"])),
        Err(BenchmarkError::MissingCount)
    );
    assert_eq!(
        benchmark_target(&args(&["explora", "--benchmark", "many"])),
        Err(BenchmarkError::InvalidCount)
    );
    assert_eq!(find_argument(&args(&["a", "--x", "--x"]), "--x"), Some(1));
    assert_eq!(find_argument(&args(&["a"]), "--x"), None);
    assert_eq!(readback_every(true, Some("9")), Some(1));
    assert_eq!(readback_every(false, None), Some(16));
    assert_eq!(readback_every(false, Some("0")), Some(0));
    assert_eq!(readback_every(false, Some("x")), None);
}

#[test]
fn spirv_is_read_word_by_word() {
    let blob = [0x03, 0x02, 0x23, 0x07, 0x01, 0x00, 0x02, 0xff];
    assert!(is_spirv_blob(&blob));
    assert_eq!(spv_words(&blob), vec![0x0723_0203, 0xff02_0001]);
    assert!(!is_spirv_blob(&[]));
    assert!(!is_spirv_blob(&blob[..6]));
    assert!(!is_spirv_blob(&[0x07, 0x23, 0x02, 0x03]));
}

#[test]
fn stage_times_are_averaged() {
    let mut s = StageStats::new();
    let zero = StageReport {
        acquire_us: 0,
        fence_wait_us: 0,
        submit_us: 0,
        present_us: 0,
        sim_ns: 0,
        camera_ns: 0,
        fx_ns: 0,
        gpu_us: 0,
    };
    assert_eq!(s.report(), zero);
    s.add_batch(10, 20, 30, 40);
    s.add_batch(20, 21, 33, 44);
    s.add_cpu(100, 300);
    s.add_fx(51);
    s.add_gpu(900);
    s.add_gpu_pass(9, 7);
    s.add_gpu_pass(10, 99);
    assert_eq!(
        s.report(),
        StageReport {
            acquire_us: 15,
            fence_wait_us: 20,
            submit_us: 31,
            present_us: 42,
            sim_ns: 50,
            camera_ns: 150,
            fx_ns: 25,
            gpu_us: 900,
        }
    );
    assert_eq!(s.gpu_pass_avg(), [0, 0, 0, 0, 0, 0, 0, 0, 0, 7]);
}
