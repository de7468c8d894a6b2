//! Window-side application state: keyboard mapping, exit requests, and the
//! control and display bits exchanged with the render thread.
use crate::hud;
use vstd::prelude::*;

verus! {

// ---------------------------------------------------------------------------
// Keys
// ---------------------------------------------------------------------------

/// A physical key that the game knows.
#[derive(Clone, Copy, Debug, PartialEq, Eq, Structural)]
pub enum KeyCode {
    KeyW,
    KeyS,
    KeyA,
    KeyD,
    KeyQ,
    KeyE,
    ArrowUp,
    ArrowDown,
    ArrowLeft,
    ArrowRight,
    ShiftLeft,
    ShiftRight,
    ControlLeft,
    ControlRight,
    Escape,
    KeyC,
    KeyH,
    KeyM,
    KeyP,
    KeyR,
    F1,
    F11,
    /// Any other key.
    Other,
}

pub const KEY_W: u32 = 1;

pub const KEY_S: u32 = 2;

pub const KEY_A: u32 = 4;

pub const KEY_D: u32 = 8;

pub const KEY_Q: u32 = 16;

pub const KEY_E: u32 = 32;

pub const KEY_SHIFT: u32 = 64;

/// Flight control bit of a key, 0 for keys that steer nothing.
pub open spec fn control_bit(code: KeyCode) -> u32 {
    match code {
        KeyCode::KeyW | KeyCode::ArrowUp => KEY_W,
        KeyCode::KeyS | KeyCode::ArrowDown => KEY_S,
        KeyCode::KeyA | KeyCode::ArrowLeft => KEY_A,
        KeyCode::KeyD | KeyCode::ArrowRight => KEY_D,
        KeyCode::KeyQ => KEY_Q,
        KeyCode::KeyE => KEY_E,
        KeyCode::ShiftLeft | KeyCode::ShiftRight => KEY_SHIFT,
        _ => 0,
    }
}

/// Map a physical key to its bitmask flag.
pub fn key_bit(code: KeyCode) -> (r: u32)
    ensures
        r == control_bit(code),
{
    match code {
        KeyCode::KeyW | KeyCode::ArrowUp => KEY_W,
        KeyCode::KeyS | KeyCode::ArrowDown => KEY_S,
        KeyCode::KeyA | KeyCode::ArrowLeft => KEY_A,
        KeyCode::KeyD | KeyCode::ArrowRight => KEY_D,
        KeyCode::KeyQ => KEY_Q,
        KeyCode::KeyE => KEY_E,
        KeyCode::ShiftLeft | KeyCode::ShiftRight => KEY_SHIFT,
        _ => 0,
    }
}

/// Normalized flight control inputs: each axis is -1, 0 or 1.
#[derive(Clone, Copy, Debug, PartialEq, Eq, Structural)]
pub struct Controls {
    pub pitch: i8,
    pub bank: i8,
    pub yaw: i8,
    pub boost: bool,
}

/// Position of an axis with a key at either end: both keys cancel.
pub open spec fn axis(bits: u32, positive: u32, negative: u32) -> i8 {
    if bits & positive != 0 && bits & negative == 0 {
        1
    } else if bits & positive == 0 && bits & negative != 0 {
        (-1) as i8
    } else {
        0
    }
}

fn axis_of(bits: u32, positive: u32, negative: u32) -> (r: i8)
    ensures
        r == axis(bits, positive, negative),
{
    let up: i8 = if bits & positive != 0 {
        1
    } else {
        0
    };
    let down: i8 = if bits & negative != 0 {
        1
    } else {
        0
    };
    up - down
}

/// Flight controls under a set of pressed keys.
pub open spec fn controls_of(bits: u32) -> Controls {
    Controls {
        pitch: axis(bits, KEY_S, KEY_W),
        bank: axis(bits, KEY_A, KEY_D),
        yaw: axis(bits, KEY_E, KEY_Q),
        boost: bits & KEY_SHIFT != 0,
    }
}

impl Controls {
    /// Centred controls without boost: no key is held.
    pub fn neutral() -> (r: Self)
        ensures
            r == (Controls { pitch: 0, bank: 0, yaw: 0, boost: false }),
            r == controls_of(0),
    {
        assert(0u32 & KEY_S == 0 && 0u32 & KEY_W == 0 && 0u32 & KEY_A == 0 && 0u32 & KEY_D == 0
            && 0u32 & KEY_E == 0 && 0u32 & KEY_Q == 0 && 0u32 & KEY_SHIFT == 0) by (bit_vector);
        Controls { pitch: 0, bank: 0, yaw: 0, boost: false }
    }
}

/// Decode the pressed-key bitmask into flight control inputs.
pub fn controls_from(bits: u32) -> (r: Controls)
    ensures
        r == controls_of(bits),
{
    Controls {
        pitch: axis_of(bits, KEY_S, KEY_W),
        bank: axis_of(bits, KEY_A, KEY_D),
        yaw: axis_of(bits, KEY_E, KEY_Q),
        boost: bits & KEY_SHIFT != 0,
    }
}

// ---------------------------------------------------------------------------
// Shared state
// ---------------------------------------------------------------------------

/// The exit flag of the process. There is one, whatever shares state.
#[derive(Clone, Copy, Debug, PartialEq, Eq, Structural)]
pub struct ProcessExit {
    /// A termination signal has arrived, or shutdown was requested.
    pub raised: bool,
}

impl ProcessExit {
    /// Nothing has asked for shutdown yet.
    pub fn new() -> (r: ProcessExit)
        ensures
            !r.raised,
    {
        ProcessExit { raised: false }
    }

    /// Take note of a termination signal. The second one, or one after a
    /// request to shut down, forces immediate termination: the result tells.
    pub fn on_signal(&mut self) -> (force: bool)
        ensures
            final(self).raised,
            force == old(self).raised,
    {
        let force: bool = self.raised;
        self.raised = true;
        force
    }
}

/// State shared between the window and the render thread.
#[derive(Clone, Copy, Debug, PartialEq, Eq, Structural)]
pub struct Shared {
    /// The window was closed, or an exit shortcut pressed.
    pub exit: bool,
    /// Bitmask of the flight control keys that are held down.
    pub keys: u32,
    /// Display state, in bits of `hud`.
    pub ui: u32,
}

impl Shared {
    /// State at start.
    pub fn new(ui: u32) -> (r: Shared)
        ensures
            r == (Shared { exit: false, keys: 0, ui }),
    {
        Shared { exit: false, keys: 0, ui }
    }

    /// Whether the application is to shut down.
    pub open spec fn exiting(self, process: ProcessExit) -> bool {
        self.exit || process.raised
    }

    /// The state after a request to shut down.
    pub open spec fn exited(self) -> Shared {
        Shared { exit: true, ..self }
    }

    /// Check whether exit has been requested, by the window or by a signal.
    pub fn should_exit(&self, process: &ProcessExit) -> (r: bool)
        ensures
            r == self.exiting(*process),
    {
        self.exit || process.raised
    }

    /// Request application shutdown across all threads.
    pub fn request_exit(&mut self, process: &mut ProcessExit)
        ensures
            *final(self) == old(self).exited(),
            final(process).raised,
    {
        self.exit = true;
        process.raised = true;
    }

    /// What the render thread takes from the display state at the start of a
    /// frame: the bits as they are. A request for a reset is taken away.
    pub fn take_ui(&mut self) -> (ui: u32)
        ensures
            ui == old(self).ui,
            *final(self) == (Shared { ui: old(self).ui & !hud::RESET, ..*old(self) }),
    {
        let ui: u32 = self.ui;
        self.ui = ui & !hud::RESET;
        ui
    }
}

// ---------------------------------------------------------------------------
// Events
// ---------------------------------------------------------------------------

/// A key went down or up.
#[derive(Clone, Copy, Debug, PartialEq, Eq, Structural)]
pub struct KeyEvent {
    /// Physical key, where the platform names one.
    pub physical: Option<KeyCode>,
    /// The layout maps the key to escape.
    pub logical_escape: bool,
    /// The layout maps the key to the interrupt character.
    pub logical_interrupt: bool,
    pub pressed: bool,
    /// The platform repeats a held key.
    pub repeat: bool,
}

/// An event of the window.
#[derive(Clone, Copy, Debug, PartialEq, Eq, Structural)]
pub enum WindowEvent {
    CloseRequested,
    /// The modifier keys changed. Tells whether control is down.
    ModifiersChanged(bool),
    /// The window lost the keyboard.
    Unfocused,
    Key(KeyEvent),
    Other,
}

/// What the window has to do about an event.
#[derive(Clone, Copy, Debug, PartialEq, Eq, Structural)]
pub enum WindowAction {
    Nothing,
    /// Enter or leave fullscreen.
    ToggleFullscreen,
}

/// What the event thread does when no event is pending.
#[derive(Clone, Copy, Debug, PartialEq, Eq, Structural)]
pub enum IdleAction {
    /// Sleep until an event arrives. The render thread never waits on it.
    Wait,
    Exit,
}

/// State of the window side.
#[derive(Clone, Copy, Debug, PartialEq, Eq, Structural)]
pub struct Input {
    pub shared: Shared,
    pub ctrl_pressed: bool,
}

/// Display bit that a key toggles, 0 for keys that toggle none.
pub open spec fn toggle_bit(code: KeyCode) -> u32 {
    match code {
        KeyCode::KeyH => hud::VISIBLE,
        KeyCode::F1 => hud::HELP,
        KeyCode::KeyM => hud::AUDIO,
        KeyCode::KeyP => hud::PAUSED,
        _ => 0,
    }
}

fn toggle_of(code: KeyCode) -> (r: u32)
    ensures
        r == toggle_bit(code),
{
    match code {
        KeyCode::KeyH => hud::VISIBLE,
        KeyCode::F1 => hud::HELP,
        KeyCode::KeyM => hud::AUDIO,
        KeyCode::KeyP => hud::PAUSED,
        _ => 0,
    }
}

impl Input {
    /// Whether control is down once a key event has been seen.
    pub open spec fn control_after(self, e: KeyEvent) -> bool {
        if e.physical == Some(KeyCode::ControlLeft) || e.physical == Some(KeyCode::ControlRight) {
            e.pressed
        } else {
            self.ctrl_pressed
        }
    }

    /// A key event asks for shutdown: escape, or control and C.
    pub open spec fn is_exit(self, e: KeyEvent) -> bool {
        e.pressed && (e.logical_escape || e.physical == Some(KeyCode::Escape) || (e.physical == Some(
            KeyCode::KeyC,
        ) && self.control_after(e)) || e.logical_interrupt)
    }

    /// Display state after a key event that is no exit shortcut.
    pub open spec fn ui_after(self, e: KeyEvent) -> u32 {
        match e.physical {
            Some(code) => if e.pressed && !e.repeat {
                let toggled = self.shared.ui ^ toggle_bit(code);
                if code == KeyCode::KeyR {
                    toggled | hud::RESET
                } else {
                    toggled
                }
            } else {
                self.shared.ui
            },
            None => self.shared.ui,
        }
    }

    /// Pressed keys after a key event that is no exit shortcut.
    pub open spec fn keys_after(self, e: KeyEvent) -> u32 {
        match e.physical {
            Some(code) => if e.pressed {
                self.shared.keys | control_bit(code)
            } else {
                self.shared.keys & !control_bit(code)
            },
            None => self.shared.keys,
        }
    }

    /// The state after an event.
    pub open spec fn after(self, event: WindowEvent) -> Input {
        match event {
            WindowEvent::CloseRequested => Input { shared: self.shared.exited(), ..self },
            WindowEvent::ModifiersChanged(control) => Input { ctrl_pressed: control, ..self },
            WindowEvent::Unfocused => Input {
                shared: Shared { keys: 0, ..self.shared },
                ctrl_pressed: false,
            },
            WindowEvent::Key(e) => Input {
                shared: if self.is_exit(e) {
                    self.shared.exited()
                } else {
                    Shared { keys: self.keys_after(e), ui: self.ui_after(e), ..self.shared }
                },
                ctrl_pressed: self.control_after(e),
            },
            WindowEvent::Other => self,
        }
    }

    /// The event asks for shutdown.
    pub open spec fn asks_exit(self, event: WindowEvent) -> bool {
        match event {
            WindowEvent::CloseRequested => true,
            WindowEvent::Key(e) => self.is_exit(e),
            _ => false,
        }
    }

    /// The exit flag of the process after an event.
    pub open spec fn process_after(self, process: ProcessExit, event: WindowEvent) -> ProcessExit {
        ProcessExit { raised: process.raised || self.asks_exit(event) }
    }

    /// What the window has to do about an event.
    pub open spec fn action(self, event: WindowEvent) -> WindowAction {
        match event {
            WindowEvent::Key(e) => if e.physical == Some(KeyCode::F11) && e.pressed && !e.repeat
                && !self.is_exit(e) {
                WindowAction::ToggleFullscreen
            } else {
                WindowAction::Nothing
            },
            _ => WindowAction::Nothing,
        }
    }

    /// Handle window-level input events: close requests, exit shortcuts,
    /// display toggles, fullscreen and flight controls.
    pub fn window_event(&mut self, process: &mut ProcessExit, event: WindowEvent) -> (r:
        WindowAction)
        ensures
            *final(self) == old(self).after(event),
            *final(process) == old(self).process_after(*old(process), event),
            r == old(self).action(event),
    {
        match event {
            WindowEvent::CloseRequested => {
                self.shared.request_exit(process);
                WindowAction::Nothing
            },
            WindowEvent::ModifiersChanged(control) => {
                self.ctrl_pressed = control;
                WindowAction::Nothing
            },
            WindowEvent::Unfocused => {
                self.shared.keys = 0;
                self.ctrl_pressed = false;
                WindowAction::Nothing
            },
            WindowEvent::Key(e) => self.key_event(process, e),
            WindowEvent::Other => WindowAction::Nothing,
        }
    }

    fn key_event(&mut self, process: &mut ProcessExit, e: KeyEvent) -> (r: WindowAction)
        ensures
            *final(self) == old(self).after(WindowEvent::Key(e)),
            *final(process) == old(self).process_after(*old(process), WindowEvent::Key(e)),
            r == old(self).action(WindowEvent::Key(e)),
    {
        let (escape, letter_c, code): (bool, bool, Option<KeyCode>) = match e.physical {
            Some(code) => {
                if code == KeyCode::ControlLeft || code == KeyCode::ControlRight {
                    self.ctrl_pressed = e.pressed;
                }
                (code == KeyCode::Escape, code == KeyCode::KeyC, Some(code))
            },
            None => (false, false, None),
        };
        let is_esc: bool = e.logical_escape || escape;
        let is_ctrl_c: bool = (letter_c && self.ctrl_pressed) || e.logical_interrupt;
        if e.pressed && (is_esc || is_ctrl_c) {
            self.shared.request_exit(process);
            return WindowAction::Nothing;
        }
        let mut action: WindowAction = WindowAction::Nothing;
        match code {
            Some(code) => {
                let bit: u32 = key_bit(code);
                if e.pressed {
                    if !e.repeat {
                        self.shared.ui = self.shared.ui ^ toggle_of(code);
                        if code == KeyCode::KeyR {
                            self.shared.ui = self.shared.ui | hud::RESET;
                        }
                        if code == KeyCode::F11 {
                            action = WindowAction::ToggleFullscreen;
                        }
                    }
                    self.shared.keys = self.shared.keys | bit;
                } else {
                    self.shared.keys = self.shared.keys & !bit;
                }
            },
            None => {},
        }
        action
    }

    /// Put the event thread to sleep, or leave where shutdown was requested.
    pub fn about_to_wait(&self, process: &ProcessExit) -> (r: IdleAction)
        ensures
            r == (if self.shared.exiting(*process) {
                IdleAction::Exit
            } else {
                IdleAction::Wait
            }),
    {
        if self.shared.should_exit(process) {
            IdleAction::Exit
        } else {
            IdleAction::Wait
        }
    }
}

// ---------------------------------------------------------------------------
// What holds of all events
// ---------------------------------------------------------------------------

/// Shutdown cannot be taken back: no event clears the request, for this state
/// or for any other.
pub proof fn exit_is_sticky(input: Input, other: Shared, process: ProcessExit, event: WindowEvent)
    ensures
        input.shared.exiting(process) ==> input.after(event).shared.exiting(
            input.process_after(process, event),
        ),
        other.exiting(process) ==> other.exiting(input.process_after(process, event)),
{
}

/// A request to shut down is seen by everything that shares state in the
/// process, and changes nothing else.
pub proof fn requests_reach_every_state(input: Input, event: WindowEvent, process: ProcessExit)
    requires
        input.asks_exit(event),
    ensures
        forall|other: Shared| #[trigger] other.exiting(input.process_after(process, event)),
        input.after(event).shared.exit,
        input.after(event).shared.keys == input.shared.keys,
        input.after(event).shared.ui == input.shared.ui,
{
}

/// While nothing has asked for shutdown, a state that was not asked goes on.
pub proof fn nothing_exits_unasked(input: Input, event: WindowEvent, process: ProcessExit)
    requires
        !input.shared.exiting(process),
        !input.asks_exit(event),
    ensures
        !input.after(event).shared.exiting(input.process_after(process, event)),
{
}

/// Losing the keyboard releases every control.
pub proof fn unfocused_releases_controls(input: Input)
    ensures
        controls_of(input.after(WindowEvent::Unfocused).shared.keys) == (Controls {
            pitch: 0,
            bank: 0,
            yaw: 0,
            boost: false,
        }),
{
    assert(0u32 & 1 == 0 && 0u32 & 2 == 0 && 0u32 & 4 == 0 && 0u32 & 8 == 0 && 0u32 & 16 == 0 && 0u32
        & 32 == 0 && 0u32 & 64 == 0) by (bit_vector);
}

/// A key event sets or clears the bit of its key, and no other bit.
pub proof fn key_events_touch_their_own_bit(input: Input, e: KeyEvent, code: KeyCode, other: u32)
    requires
        e.physical == Some(code),
        !input.is_exit(e),
        control_bit(code) != 0,
        other & control_bit(code) == 0,
    ensures
        ({
            let keys = input.after(WindowEvent::Key(e)).shared.keys;
            &&& (keys & control_bit(code) != 0) == e.pressed
            &&& keys & other == input.shared.keys & other
        }),
{
    let keys = input.shared.keys;
    let bit = control_bit(code);
    assert(((keys | bit) & bit) != 0 && ((keys & !bit) & bit) == 0 && ((keys | bit) & other) == (keys
        & other) && ((keys & !bit) & other) == (keys & other)) by (bit_vector)
        requires
            bit != 0,
            other & bit == 0,
    ;
}

/// A held key that the platform repeats changes neither the display state
/// nor the window.
pub proof fn repeats_toggle_nothing(input: Input, e: KeyEvent)
    requires
        e.repeat,
        !input.is_exit(e),
    ensures
        input.after(WindowEvent::Key(e)).shared.ui == input.shared.ui,
        input.action(WindowEvent::Key(e)) == WindowAction::Nothing,
{
}

/// Pressing a toggle key twice restores the display state.
pub proof fn toggles_undo_themselves(input: Input, e: KeyEvent, code: KeyCode)
    requires
        e.physical == Some(code),
        e.pressed,
        !input.is_exit(e),
        code != KeyCode::KeyR,
    ensures
        ({
            let once = input.after(WindowEvent::Key(e));
            once.after(WindowEvent::Key(e)).shared.ui == input.shared.ui
        }),
{
    let ui = input.shared.ui;
    let bit = toggle_bit(code);
    assert(ui ^ bit ^ bit == ui) by (bit_vector);
}

/// Controls that a key moves while it is held alone. W and the arrow up push
/// the nose down, S and the arrow down pull it up; A and D bank, with the
/// arrows to their side; Q and E yaw; either shift boosts.
pub proof fn keys_steer(code: KeyCode)
    ensures
        ({
            let c = controls_of(control_bit(code));
            let (up, down) = (
                code == KeyCode::KeyS || code == KeyCode::ArrowDown,
                code == KeyCode::KeyW || code == KeyCode::ArrowUp,
            );
            let (left, right) = (
                code == KeyCode::KeyA || code == KeyCode::ArrowLeft,
                code == KeyCode::KeyD || code == KeyCode::ArrowRight,
            );
            &&& (c.pitch == 1 <==> up) && (c.pitch == -1 <==> down)
            &&& (c.bank == 1 <==> left) && (c.bank == -1 <==> right)
            &&& (c.yaw == 1 <==> code == KeyCode::KeyE) && (c.yaw == -1 <==> code == KeyCode::KeyQ)
            &&& c.boost <==> code == KeyCode::ShiftLeft || code == KeyCode::ShiftRight
            &&& -1 <= c.pitch <= 1 && -1 <= c.bank <= 1 && -1 <= c.yaw <= 1
        }),
{
    single_bits();
}

proof fn single_bits()
    ensures
        forall|a: u32, b: u32|
            #![trigger a & b]
            (a == 0 || a == 1 || a == 2 || a == 4 || a == 8 || a == 16 || a == 32 || a == 64) && (b
                == 1 || b == 2 || b == 4 || b == 8 || b == 16 || b == 32 || b == 64) ==> (a & b != 0
                <==> a == b),
{
    assert(forall|a: u32, b: u32|
        #![trigger a & b]
        (a == 0 || a == 1 || a == 2 || a == 4 || a == 8 || a == 16 || a == 32 || a == 64) && (b == 1
            || b == 2 || b == 4 || b == 8 || b == 16 || b == 32 || b == 64) ==> (a & b != 0 <==> a
            == b)) by (bit_vector);
}

/// Keys add up. What two sets of keys ask for together is, on each axis, what
/// either asks for; where one pushes and the other pulls, the axis is centred.
/// The boost of either is the boost of both.
pub proof fn keys_add_up(a: u32, b: u32)
    ensures
        ({
            let (p, q, r) = (controls_of(a), controls_of(b), controls_of(a | b));
            &&& b & KEY_W == 0 && b & KEY_S == 0 ==> r.pitch == p.pitch
            &&& b & KEY_A == 0 && b & KEY_D == 0 ==> r.bank == p.bank
            &&& b & KEY_E == 0 && b & KEY_Q == 0 ==> r.yaw == p.yaw
            &&& p.pitch == 1 && q.pitch == -1 ==> r.pitch == 0
            &&& p.bank == 1 && q.bank == -1 ==> r.bank == 0
            &&& p.yaw == 1 && q.yaw == -1 ==> r.yaw == 0
            &&& p.pitch == q.pitch && p.pitch != 0 ==> r.pitch == p.pitch
            &&& p.bank == q.bank && p.bank != 0 ==> r.bank == p.bank
            &&& p.yaw == q.yaw && p.yaw != 0 ==> r.yaw == p.yaw
            &&& r.boost <==> p.boost || q.boost
        }),
{
    bits_join(a, b);
}

proof fn bits_join(a: u32, b: u32)
    ensures
        forall|k: u32| #[trigger] ((a | b) & k) != 0 <==> a & k != 0 || b & k != 0,
{
    assert(forall|k: u32| #[trigger] ((a | b) & k) != 0 <==> a & k != 0 || b & k != 0)
        by (bit_vector);
}

/// Keys that move different controls, or move one in different directions, have
/// different bits, and a key that moves none has no bit.
pub proof fn keys_do_not_share_bits(a: KeyCode, b: KeyCode)
    ensures
        control_bit(a) & control_bit(b) != 0 ==> controls_of(control_bit(a)) == controls_of(
            control_bit(b),
        ) && control_bit(a) == control_bit(b),
        control_bit(a) == 0 <==> controls_of(control_bit(a)) == (Controls {
            pitch: 0,
            bank: 0,
            yaw: 0,
            boost: false,
        }),
{
    single_bits();
    keys_steer(a);
    keys_steer(b);
    let y = control_bit(b);
    let x = control_bit(a);
    assert(x & 0 == 0) by (bit_vector);
}

/// A key that goes down changes its own part of the display state: H shows or
/// hides the display, F1 the help, M the sound and P the pause. R asks for a
/// reset and takes nothing back. No other key touches it, and no key does when
/// it goes up.
pub proof fn display_keys_do_their_part(input: Input, e: KeyEvent, code: KeyCode)
    requires
        e.physical == Some(code),
        !e.repeat,
        !input.is_exit(e),
    ensures
        ({
            let (ui, next) = (input.shared.ui, input.after(WindowEvent::Key(e)).shared.ui);
            &&& (next & hud::VISIBLE != ui & hud::VISIBLE) <==> e.pressed && code == KeyCode::KeyH
            &&& (next & hud::HELP != ui & hud::HELP) <==> e.pressed && code == KeyCode::F1
            &&& (next & hud::AUDIO != ui & hud::AUDIO) <==> e.pressed && code == KeyCode::KeyM
            &&& (next & hud::PAUSED != ui & hud::PAUSED) <==> e.pressed && code == KeyCode::KeyP
            &&& (next & hud::RESET != 0) <==> ui & hud::RESET != 0 || e.pressed && code
                == KeyCode::KeyR
            &&& next & !31u32 == ui & !31u32
            &&& input.action(WindowEvent::Key(e)) == WindowAction::ToggleFullscreen <==> e.pressed
                && code == KeyCode::F11
        }),
{
    let ui = input.shared.ui;
    let bit = toggle_bit(code);
    assert(forall|t: u32, k: u32|
        #![trigger (ui ^ t) & k]
        (t == 0 || t == 1 || t == 2 || t == 4 || t == 8) && (k == 1 || k == 2 || k == 4 || k == 8
            || k == 16) ==> ((ui ^ t) & k != ui & k <==> t == k) && (ui ^ t) & !31u32 == ui & !31u32
            && (k != t ==> (ui ^ t) & k == ui & k)) by (bit_vector);
    assert((ui ^ 0) == ui) by (bit_vector);
    assert(forall|k: u32|
        #![trigger (ui | 16) & k]
        (k == 1 || k == 2 || k == 4 || k == 8 ==> (ui | 16) & k == ui & k) && (ui | 16) & 16 != 0
            && (ui | 16) & !31u32 == ui & !31u32) by (bit_vector);
    let x = (ui ^ bit) & 16;
    let y = (ui ^ bit) & 1;
    let z = (ui | 16) & 16;
}

/// Escape ends the game, by the key or by what the layout makes of it, and so
/// does C while control is held, or what the layout makes of the two. A key
/// that goes up never does, and no other key does.
pub proof fn only_shortcuts_exit(input: Input, e: KeyEvent)
    ensures
        !e.pressed ==> !input.is_exit(e),
        e.pressed && (e.physical == Some(KeyCode::Escape) || e.logical_escape
            || e.logical_interrupt) ==> input.is_exit(e),
        e.pressed && e.physical == Some(KeyCode::KeyC) && input.ctrl_pressed ==> input.is_exit(e),
        !e.logical_escape && !e.logical_interrupt && e.physical != Some(KeyCode::Escape) && (
        e.physical != Some(KeyCode::KeyC) || !input.ctrl_pressed) ==> !input.is_exit(e),
        input.asks_exit(WindowEvent::CloseRequested),
{
}

/// Control counts from when it goes down until it goes up, by either key, and
/// no other key changes it. So C ends the game in between, and only there.
pub proof fn control_is_held(input: Input, control: KeyEvent, c: KeyEvent)
    requires
        control.physical == Some(KeyCode::ControlLeft) || control.physical == Some(
            KeyCode::ControlRight,
        ),
        !control.logical_escape && !control.logical_interrupt,
        c.physical == Some(KeyCode::KeyC),
        !c.logical_escape && !c.logical_interrupt,
        c.pressed,
    ensures
        input.after(WindowEvent::Key(control)).is_exit(c) <==> control.pressed,
        input.after(WindowEvent::ModifiersChanged(control.pressed)).is_exit(c) <==> control.pressed,
        !input.after(WindowEvent::Unfocused).is_exit(c),
        input.after(WindowEvent::Key(c)).ctrl_pressed == input.ctrl_pressed,
        !input.is_exit(control),
{
}

} // verus!
