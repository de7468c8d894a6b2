use explora::pcm::{after_setup, Pcm, PcmAction, Setup, SetupStep, Stage, BUFFER_FRAMES, RETRY_MS};

fn writing() -> Pcm {
    let mut pcm = Pcm::new();
    assert_eq!(pcm.action(), PcmAction::Render);
    pcm.rendered();
    pcm
}

#[test]
fn platform_codes_are_those_of_linux() {
    let codes = Pcm::new().codes;
    assert_eq!(codes.again, 11);
    assert_eq!(codes.broken_pipe, 32);
    assert_eq!(codes.interrupted, 4);
    assert!([86, 91, 92].contains(&codes.suspended));
    assert_eq!(RETRY_MS, 2);
}

#[test]
fn partial_writes_continue_where_they_stopped() {
    let mut pcm = writing();
    assert_eq!(pcm.action(), PcmAction::Write { first: 0, frames: 480 });
    pcm.wrote(100);
    assert_eq!(pcm.action(), PcmAction::Write { first: 100, frames: 380 });
    pcm.wrote(380);
    assert_eq!(pcm.action(), PcmAction::Render);
    assert_eq!(pcm.sent, BUFFER_FRAMES);
    assert!(pcm.failure().is_none());
}

#[test]
fn a_busy_device_is_tried_again_later() {
    for count in [0, -11] {
        let mut pcm = writing();
        pcm.wrote(100);
        pcm.wrote(count);
        assert_eq!(pcm.action(), PcmAction::Sleep);
        pcm.slept();
        assert_eq!(pcm.action(), PcmAction::Write { first: 100, frames: 380 });
    }
}

#[test]
fn an_interrupted_write_is_repeated() {
    let mut pcm = writing();
    pcm.wrote(-4);
    assert_eq!(pcm.action(), PcmAction::Write { first: 0, frames: 480 });
}

#[test]
fn an_underrun_is_prepared_again() {
    let mut pcm = writing();
    pcm.wrote(200);
    pcm.wrote(-32);
    assert_eq!(pcm.action(), PcmAction::Prepare);
    pcm.prepared(0);
    assert_eq!(pcm.action(), PcmAction::Write { first: 200, frames: 280 });
    pcm.wrote(-32);
    pcm.prepared(-5);
    assert_eq!(pcm.action(), PcmAction::Stop);
    assert_eq!(pcm.failure().as_deref(), Some("PCM write failed (-32)"));
}

#[test]
fn a_suspended_device_is_resumed() {
    let mut pcm = writing();
    let suspended = pcm.codes.suspended as i64;
    pcm.wrote(-suspended);
    assert_eq!(pcm.action(), PcmAction::Resume);
    pcm.resumed(-11);
    assert_eq!(pcm.action(), PcmAction::Sleep);
    pcm.slept();
    pcm.wrote(-suspended);
    pcm.resumed(0);
    assert_eq!(pcm.stage, Stage::Ready);
    pcm.wrote(-suspended);
    pcm.resumed(-38);
    assert_eq!(pcm.action(), PcmAction::Prepare);
    pcm.prepared(-1);
    assert_eq!(pcm.failure().as_deref(), Some("PCM resume failed (-38)"));
}

#[test]
fn any_other_error_stops_the_writer() {
    let mut pcm = writing();
    pcm.wrote(-19);
    assert_eq!(pcm.action(), PcmAction::Stop);
    assert_eq!(pcm.failure().as_deref(), Some("PCM write failed (-19)"));
}

#[test]
fn every_error_number_has_its_answer() {
    let suspended = Pcm::new().codes.suspended as i64;
    for count in -200..0 {
        let mut pcm = writing();
        pcm.wrote(count);
        let expected = if count == -11 {
            PcmAction::Sleep
        } else if count == -32 {
            PcmAction::Prepare
        } else if count == -4 {
            PcmAction::Write { first: 0, frames: 480 }
        } else if count == -suspended {
            PcmAction::Resume
        } else {
            PcmAction::Stop
        };
        assert_eq!(pcm.action(), expected);
    }
}

#[test]
fn a_device_that_cannot_be_set_up_ends_the_sound() {
    for status in [0, 1, i32::MAX] {
        assert_eq!(after_setup(SetupStep::Open, status), Setup::Proceed);
        assert_eq!(after_setup(SetupStep::Configure, status), Setup::Proceed);
    }
    assert_eq!(
        after_setup(SetupStep::Open, -2),
        Setup::Fail { close: false, message: "PCM device unavailable (-2)".to_string() }
    );
    assert_eq!(
        after_setup(SetupStep::Configure, -22),
        Setup::Fail { close: true, message: "PCM configuration failed (-22)".to_string() }
    );
    assert_eq!(
        after_setup(SetupStep::Configure, i32::MIN),
        Setup::Fail { close: true, message: "PCM configuration failed (-2147483648)".to_string() }
    );
}
