use explora::hud::{initial, AUDIO, DEFAULT, HELP, PAUSED, RESET, SHOWN, VISIBLE};
use explora::input::{
    controls_from, key_bit, Controls, IdleAction, Input, KeyCode, KeyEvent, ProcessExit, Shared,
    WindowAction, WindowEvent, KEY_A, KEY_D, KEY_E, KEY_Q, KEY_S, KEY_SHIFT, KEY_W,
};

fn key(code: KeyCode, pressed: bool, repeat: bool) -> WindowEvent {
    WindowEvent::Key(KeyEvent {
        physical: Some(code),
        logical_escape: false,
        logical_interrupt: false,
        pressed,
        repeat,
    })
}

fn fresh() -> Input {
    Input { shared: Shared::new(DEFAULT), ctrl_pressed: false }
}

#[test]
fn test_shared_exit_and_shortcuts() {
    let mut process = ProcessExit::new();
    let mut shared = Shared::new(DEFAULT);
    assert!(!shared.should_exit(&process));
    shared.request_exit(&mut process);
    assert!(shared.should_exit(&process));
}

#[test]
fn a_request_reaches_every_state() {
    let mut process = ProcessExit::new();
    let (mut one, other) = (Shared::new(DEFAULT), Shared { exit: false, keys: 3, ui: 5 });
    assert!(!other.should_exit(&process));
    one.request_exit(&mut process);
    assert!(one.should_exit(&process) && other.should_exit(&process));
    assert_eq!((one.keys, one.ui), (0, DEFAULT));
    assert!(Shared::new(0).should_exit(&process));
    assert!(process.on_signal());
}

#[test]
fn a_second_signal_forces_termination() {
    let mut process = ProcessExit::new();
    let shared = Shared::new(DEFAULT);
    assert!(!process.on_signal());
    assert!(shared.should_exit(&process));
    assert!(process.on_signal());
}

#[test]
fn keys_map_to_their_bits() {
    for (codes, bit) in [
        ([KeyCode::KeyW, KeyCode::ArrowUp], KEY_W),
        ([KeyCode::KeyS, KeyCode::ArrowDown], KEY_S),
        ([KeyCode::KeyA, KeyCode::ArrowLeft], KEY_A),
        ([KeyCode::KeyD, KeyCode::ArrowRight], KEY_D),
        ([KeyCode::KeyQ, KeyCode::KeyQ], KEY_Q),
        ([KeyCode::KeyE, KeyCode::KeyE], KEY_E),
        ([KeyCode::ShiftLeft, KeyCode::ShiftRight], KEY_SHIFT),
        ([KeyCode::Other, KeyCode::KeyH], 0),
    ] {
        for code in codes {
            assert_eq!(key_bit(code), bit);
        }
    }
}

#[test]
fn controls_follow_the_pressed_keys() {
    let c = |pitch, bank, yaw, boost| Controls { pitch, bank, yaw, boost };
    assert_eq!(controls_from(0), c(0, 0, 0, false));
    assert_eq!(Controls::neutral(), controls_from(0));
    assert_eq!(controls_from(KEY_W | KEY_A | KEY_Q), c(-1, 1, -1, false));
    assert_eq!(controls_from(KEY_S | KEY_D | KEY_E | KEY_SHIFT), c(1, -1, 1, true));
    assert_eq!(controls_from(KEY_W | KEY_S | KEY_A | KEY_D), c(0, 0, 0, false));
}

#[test]
fn exit_shortcuts_exit() {
    let mut close = fresh();
    let mut process = ProcessExit::new();
    close.window_event(&mut process, WindowEvent::CloseRequested);
    assert!(close.shared.should_exit(&process));
    assert_eq!(close.about_to_wait(&process), IdleAction::Exit);

    let mut escape = fresh();
    let mut process = ProcessExit::new();
    assert_eq!(escape.about_to_wait(&process), IdleAction::Wait);
    escape.window_event(&mut process, key(KeyCode::Escape, false, false));
    assert!(!escape.shared.should_exit(&process));
    escape.window_event(&mut process, key(KeyCode::Escape, true, false));
    assert!(escape.shared.should_exit(&process));

    let mut interrupt = fresh();
    let mut process = ProcessExit::new();
    interrupt.window_event(&mut process, key(KeyCode::KeyC, true, false));
    assert!(!interrupt.shared.should_exit(&process));
    interrupt.window_event(&mut process, key(KeyCode::ControlLeft, true, false));
    interrupt.window_event(&mut process, key(KeyCode::KeyC, true, false));
    assert!(interrupt.shared.should_exit(&process));

    let mut modifiers = fresh();
    let mut process = ProcessExit::new();
    modifiers.window_event(&mut process, WindowEvent::ModifiersChanged(true));
    modifiers.window_event(&mut process, key(KeyCode::KeyC, true, false));
    assert!(modifiers.shared.should_exit(&process));

    let mut logical = fresh();
    let mut process = ProcessExit::new();
    logical.window_event(&mut process, WindowEvent::Key(KeyEvent {
        physical: None,
        logical_escape: false,
        logical_interrupt: true,
        pressed: true,
        repeat: false,
    }));
    assert!(logical.shared.should_exit(&process));

    // Nothing takes an exit back.
    logical.window_event(&mut process, key(KeyCode::KeyR, true, false));
    logical.window_event(&mut process, WindowEvent::Unfocused);
    logical.window_event(&mut process, WindowEvent::Other);
    assert!(logical.shared.should_exit(&process));
}

#[test]
fn display_keys_toggle_once_per_press() {
    for (code, bit) in [
        (KeyCode::KeyH, VISIBLE),
        (KeyCode::F1, HELP),
        (KeyCode::KeyM, AUDIO),
        (KeyCode::KeyP, PAUSED),
    ] {
        let mut input = fresh();
        let mut process = ProcessExit::new();
        input.window_event(&mut process, key(code, true, false));
        assert_eq!(input.shared.ui, DEFAULT ^ bit);
        input.window_event(&mut process, key(code, true, true));
        input.window_event(&mut process, key(code, false, false));
        assert_eq!(input.shared.ui, DEFAULT ^ bit);
        input.window_event(&mut process, key(code, true, false));
        assert_eq!(input.shared.ui, DEFAULT);
    }
}

#[test]
fn reset_is_taken_once() {
    let mut input = fresh();
    let mut process = ProcessExit::new();
    input.window_event(&mut process, key(KeyCode::KeyR, true, false));
    assert_eq!(input.shared.take_ui(), DEFAULT | RESET);
    assert_eq!(input.shared.take_ui(), DEFAULT);
}

#[test]
fn losing_focus_releases_the_controls() {
    let mut input = fresh();
    let mut process = ProcessExit::new();
    input.window_event(&mut process, key(KeyCode::KeyW, true, false));
    input.window_event(&mut process, key(KeyCode::ShiftRight, true, false));
    input.window_event(&mut process, key(KeyCode::ControlRight, true, false));
    assert_eq!(input.shared.keys, KEY_W | KEY_SHIFT);
    input.window_event(&mut process, key(KeyCode::KeyW, false, false));
    assert_eq!(input.shared.keys, KEY_SHIFT);
    input.window_event(&mut process, WindowEvent::Unfocused);
    assert_eq!(input.shared.keys, 0);
    assert!(!input.ctrl_pressed);
}

#[test]
fn fullscreen_is_asked_for_once_per_press() {
    let mut input = fresh();
    let mut process = ProcessExit::new();
    assert_eq!(input.window_event(&mut process, key(KeyCode::F11, true, false)), WindowAction::ToggleFullscreen);
    assert_eq!(input.window_event(&mut process, key(KeyCode::F11, true, true)), WindowAction::Nothing);
    assert_eq!(input.window_event(&mut process, key(KeyCode::F11, false, false)), WindowAction::Nothing);
}

#[test]
fn the_display_starts_visible_unless_hidden() {
    assert_eq!(initial(true), 7);
    assert_eq!(initial(false), 6);
    assert_eq!(SHOWN, VISIBLE | HELP | AUDIO | PAUSED);
}
