//! Bits of the on-screen display state.
use vstd::prelude::*;

verus! {

/// The display is drawn.
pub const VISIBLE: u32 = 1;

/// The help panel is drawn.
pub const HELP: u32 = 2;

/// Sound is on.
pub const AUDIO: u32 = 4;

/// The simulation stands still.
pub const PAUSED: u32 = 8;

/// A reset of the flight has been asked for.
pub const RESET: u32 = 16;

/// State at start.
pub const DEFAULT: u32 = 7;

/// The bits that the shader shows: all but the request for a reset.
pub const SHOWN: u32 = 15;

/// State at start, with the display hidden where it was not asked for.
pub fn initial(visible: bool) -> (r: u32)
    ensures
        r == (if visible {
            DEFAULT
        } else {
            DEFAULT & !VISIBLE
        }),
{
    if visible {
        DEFAULT
    } else {
        DEFAULT & !VISIBLE
    }
}

/// A flight starts with the display, the help and the sound on and the time
/// running. All of that is shown, and so is a pause, but not a request for a
/// reset.
pub proof fn flights_start_with_everything_on(bit: u32)
    requires
        bit == 1 || bit == 2 || bit == 4 || bit == 8 || bit == 16,
    ensures
        DEFAULT & bit != 0 <==> bit == VISIBLE || bit == HELP || bit == AUDIO,
        (DEFAULT & !VISIBLE) & bit != 0 <==> bit == HELP || bit == AUDIO,
        SHOWN & bit != 0 <==> bit != RESET,
{
    assert((7u32 & bit != 0 <==> bit == 1 || bit == 2 || bit == 4) && ((7u32 & !1u32) & bit != 0
        <==> bit == 2 || bit == 4) && (15u32 & bit != 0 <==> bit != 16)) by (bit_vector)
        requires
            bit == 1 || bit == 2 || bit == 4 || bit == 8 || bit == 16,
    ;
}

} // verus!
