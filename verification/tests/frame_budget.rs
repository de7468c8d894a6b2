use explora::frame_budget::{
    timestamp_delta, Capture, Distribution, Measurement, Progress, TARGET_FRAME_NS, WARMUP_NS,
    WARMUP_PRESENTS,
};

const MS: u64 = 1_000_000;

#[test]
fn percentiles_keep_hitches_and_sub_microsecond_precision() {
    let mut samples = (1..=100).map(|i| i * 10_000 + 500).collect::<Vec<u64>>();
    samples.reverse();
    let d = Distribution::from_ns(&mut samples).unwrap();
    assert_eq!(d.p50_ns as f64 / 1000.0, 500.5);
    assert_eq!(d.p95_ns as f64 / 1000.0, 950.5);
    assert_eq!(d.p99_ns as f64 / 1000.0, 990.5);
    assert_eq!(d.max_ns as f64 / 1000.0, 1000.5);
    assert_eq!(d.over_budget, 1);
    let mean_us = d.total_ns as f64 / d.samples as f64 / 1000.0;
    assert!((mean_us - 505.5).abs() < 0.0001);
    // The samples come back in ascending order.
    assert!(samples.windows(2).all(|w| w[0] <= w[1]));
    assert_eq!(samples[0], 10_500);
}

#[test]
fn absent_samples_are_not_reported_as_zero_time() {
    assert!(Distribution::from_ns(&mut []).is_none());
    let d = Distribution::from_ns(&mut [TARGET_FRAME_NS]).unwrap();
    assert_eq!(d.over_budget, 0);
    assert_eq!(d.p99_ns as f64 / 1000.0, 1000.0);
}

#[test]
fn timestamp_wrap_uses_queue_valid_bits() {
    assert_eq!(timestamp_delta(250, 5, 8), 11);
    assert_eq!(timestamp_delta(u64::MAX - 4, 5, 64), 10);
    assert_eq!(timestamp_delta(10, 20, 0), 0);
}

#[test]
fn rare_long_stalls_fail_average_budget_even_when_p99_passes() {
    let mut capture = Capture::new(100);
    capture.submission_intervals_ns = vec![500_000; 100];
    capture.submission_intervals_ns[99] = 100_000_000;
    assert!(capture.report("{}").contains("\"submission_target_met\":false"));
}

#[test]
fn display_target_needs_complete_distinct_feedback() {
    let mut capture = Capture::new(2);
    capture.submission_intervals_ns = vec![500_000; 2];
    capture.display_times_ns = vec![1_000_000, 1_000_000];
    assert!(capture.report("{}").contains("\"display_target_met\":null"));
    capture.display_times_ns = vec![1_000_000, 2_000_000];
    assert!(capture.report("{}").contains("\"display_target_met\":true"));
    capture.display_times_ns = vec![1_000_000, 17_666_667];
    assert!(capture.report("{}").contains("\"display_target_met\":false"));
}

#[test]
fn zero_duration_samples_do_not_emit_non_finite_json() {
    let mut capture = Capture::new(1);
    capture.submission_intervals_ns.push(0);
    let report = capture.report("{}");
    assert!(report.contains("\"present_submissions_per_second\":0.000"));
    assert!(report.contains("\"submission_target_met\":false"));
}

#[test]
fn warmup_counts_presents_and_excludes_old_gpu_queries() {
    let start = 5 * MS;
    let mut capture = Capture::new(2);
    assert_eq!(capture.submitted(start, 0, 1), Progress::Warmup);
    for id in 1..WARMUP_PRESENTS {
        assert_eq!(capture.submitted(start, WARMUP_NS, id), Progress::Warmup);
    }
    assert_eq!(capture.submitted(start, WARMUP_NS, 500), Progress::Started);
    capture.gpu_sample(500, 500_000);
    assert!(capture.gpu_ns.is_empty());
    assert_eq!(capture.submitted(start + 750_000, WARMUP_NS, 501), Progress::Measuring);
    assert_eq!(capture.submitted(start + 1_750_000, WARMUP_NS, 502), Progress::Complete);
    assert_eq!(capture.submission_intervals_ns, [750_000, 1_000_000]);
    capture.gpu_sample(501, 500_000);
    capture.displayed(500, 900);
    capture.displayed(501, 1000);
    let report = capture.report("{}");
    assert!(report.contains("\"submission_target_met\":true"));
    assert!(report.contains("\"display_target_met\":null"));
    assert_eq!(capture.gpu_ns, [500_000]);
    capture.restart();
    assert!(capture.submission_intervals_ns.is_empty());
    assert_eq!(capture.first_present_id, 0);
}

#[test]
fn warmup_takes_two_seconds_and_five_hundred_presents() {
    assert_eq!(WARMUP_NS, 2_000_000_000);
    assert_eq!(WARMUP_PRESENTS, 500);
    let mut capture = Capture::new(1);
    for id in 0..2000 {
        assert_eq!(capture.submitted(id, WARMUP_NS - 1, id), Progress::Warmup);
    }
    assert_eq!(capture.submitted(0, 0, u64::MAX), Progress::Warmup);
    assert_eq!(capture.warmup, 0);
    assert!(capture.submission_intervals_ns.is_empty());
}

#[test]
fn distributions_have_an_exact_text() {
    let mut samples = vec![1_500, 2_000, 2_500, 1_000_001];
    let d = Distribution::from_ns(&mut samples).unwrap();
    assert_eq!(
        d.json(),
        "{\"samples\":4,\"mean_us\":251.500,\"p50_us\":2.000,\"p95_us\":1000.001,\"p99_us\":1000.001,\"max_us\":1000.001,\"over_1ms\":1}"
    );
}

#[test]
fn nearest_ranks_are_samples() {
    for n in [1usize, 2, 3, 7, 99, 100, 101] {
        let mut samples: Vec<u64> = (0..n as u64).map(|i| (i * 7919) % 1009).collect();
        let d = Distribution::from_ns(&mut samples).unwrap();
        for (percent, value) in [(50, d.p50_ns), (95, d.p95_ns), (99, d.p99_ns)] {
            assert_eq!(value, samples[(n * percent + 99) / 100 - 1]);
            let covered = samples.iter().filter(|&&s| s <= value).count();
            assert!(covered * 100 >= n * percent);
        }
        assert!(d.p50_ns <= d.p95_ns && d.p95_ns <= d.p99_ns && d.p99_ns <= d.max_ns);
    }
}

#[test]
fn reports_carry_the_measurement_and_the_config() {
    let mut capture = Capture::new(2);
    capture.submission_intervals_ns = vec![800_000, 400_000];
    capture.gpu_ns = vec![300_000];
    capture.display_times_ns = vec![3_000_000, 2_200_000];
    let m = capture.measure();
    assert!(m.submission_target_met());
    assert_eq!(m.display_target_met(), Some(true));
    assert_eq!(m.displayed, 2);
    assert_eq!(
        m.summary(),
        "benchmark: present submissions 1666.7/s | 1ms budget p50 400.0 p95 800.0 p99 800.0 max 800.0 us | mean+p99 target PASS | display feedback 2/2"
    );
    assert_eq!(
        m.json("{\"a\":1}"),
        "{\"schema\":\"explora.frame-budget.v1\",\"target_fps\":1000,\"target_frame_us\":1000,\"criterion\":\"mean_and_p99\",\"present_submissions_per_second\":1666.667,\"submission_target_met\":true,\"display_target_met\":true,\"display_feedback_frames\":2,\"submission_interval\":{\"samples\":2,\"mean_us\":600.000,\"p50_us\":400.000,\"p95_us\":800.000,\"p99_us\":800.000,\"max_us\":800.000,\"over_1ms\":0},\"gpu_frame\":{\"samples\":1,\"mean_us\":300.000,\"p50_us\":300.000,\"p95_us\":300.000,\"p99_us\":300.000,\"max_us\":300.000,\"over_1ms\":0},\"display_interval\":{\"samples\":1,\"mean_us\":800.000,\"p50_us\":800.000,\"p95_us\":800.000,\"p99_us\":800.000,\"max_us\":800.000,\"over_1ms\":0},\"config\":{\"a\":1}}"
    );
}

#[test]
fn feedback_for_other_presents_is_dropped() {
    let mut capture = Capture::new(4);
    capture.first_present_id = 10;
    capture.last_present_id = 12;
    for (id, time) in [(9, 5), (10, 6), (12, 7), (13, 8), (11, 0)] {
        capture.displayed(id, time);
    }
    assert_eq!(capture.display_times_ns, [6, 7]);
}

#[test]
fn short_durations_round_like_quotients() {
    let line = |ns: u64| {
        let d = Distribution {
            samples: 1,
            total_ns: ns as u128,
            p50_ns: ns,
            p95_ns: ns,
            p99_ns: ns,
            max_ns: ns,
            over_budget: 0,
        };
        Measurement { submissions: d, gpu: None, display: None, displayed: 0 }.summary()
    };
    let mut ns = 0u64;
    while ns < 1 << 53 {
        for tie in [ns / 100 * 100 + 50, ns] {
            let expected = format!(" p50 {:.1} p95", tie as f64 / 1000.0);
            assert!(line(tie).contains(&expected), "{tie}: {}", line(tie));
        }
        ns = if ns < 20_000 { ns + 50 } else { ns + ns / 7 };
    }
    assert!(line(250).contains(" p50 0.2 p95"));
    assert!(line(50).contains(" p50 0.1 p95"));
}
