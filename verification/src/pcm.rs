//! Decisions of the PCM writer. Ten milliseconds of stereo sound are rendered
//! at a time and handed to a nonblocking device, which may take part of them,
//! be full, run dry, be interrupted, or be suspended.
use crate::text;
use vstd::prelude::*;
use vstd::string::*;

verus! {

/// Frames of one buffer.
pub const BUFFER_FRAMES: u64 = 480;

/// Pause before the device is tried again.
pub const RETRY_MS: u64 = 2;

/// Error numbers of the platform that the device reports, negated.
#[derive(Clone, Copy, Debug, PartialEq, Eq, Structural)]
pub struct ErrorCodes {
    /// The device is full.
    pub again: i32,
    /// The device ran dry.
    pub broken_pipe: i32,
    /// A system call was interrupted.
    pub interrupted: i32,
    /// The device is suspended.
    pub suspended: i32,
}

/// The error numbers of a platform that has all four. On Linux the first three
/// are 11, 32 and 4, and the last is 86, 91 or 92, by architecture; it is 143
/// on Cygwin. Emscripten has numbers of its own.
pub open spec fn platform(c: ErrorCodes) -> bool {
    ||| c.again == 11 && c.broken_pipe == 32 && c.interrupted == 4 && (c.suspended == 86
        || c.suspended == 91 || c.suspended == 92 || c.suspended == 143)
    ||| c.again == 6 && c.broken_pipe == 64 && c.interrupted == 27 && c.suspended == 135
}

/// `libc::EAGAIN`, `libc::EPIPE`, `libc::EINTR` and `libc::ESTRPIPE`, where
/// the platform has all four: each under its own name, with the numbers of
/// one such platform. Which platform it is, is left open.
#[verifier::external_body]
fn platform_codes() -> (r: ErrorCodes)
    ensures
        platform(r),
{
    ErrorCodes {
        again: libc::EAGAIN,
        broken_pipe: libc::EPIPE,
        interrupted: libc::EINTR,
        suspended: libc::ESTRPIPE,
    }
}

/// A step of setting a device up.
#[derive(Clone, Copy, Debug, PartialEq, Eq, Structural)]
pub enum SetupStep {
    Open,
    Configure,
}

/// What follows a step of setting a device up.
#[derive(Debug, PartialEq, Eq)]
pub enum Setup {
    /// The next step, or the first buffer.
    Proceed,
    /// The end, with this message. A device that is open is closed first, once.
    Fail { close: bool, message: String },
}

/// Message of a step that failed with this status.
pub open spec fn setup_message(step: SetupStep, status: i32) -> Seq<char> {
    let what = match step {
        SetupStep::Open => "PCM device unavailable ("@,
        SetupStep::Configure => "PCM configuration failed ("@,
    };
    what + text::signed_decimal(status as int) + ")"@
}

/// What the status of a step leads to. A negative one is a failure: a device
/// that was not opened is not closed, one that was not configured is.
pub fn after_setup(step: SetupStep, status: i32) -> (r: Setup)
    ensures
        match r {
            Setup::Proceed => status >= 0,
            Setup::Fail { close, message } => {
                &&& status < 0
                &&& close == (step == SetupStep::Configure)
                &&& message@ == setup_message(step, status)
            },
        },
{
    if status >= 0 {
        return Setup::Proceed;
    }
    let mut message: String = match step {
        SetupStep::Open => "PCM device unavailable (".to_owned(),
        SetupStep::Configure => "PCM configuration failed (".to_owned(),
    };
    text::push_signed(&mut message, status as i64);
    message.append(")");
    let close: bool = match step {
        SetupStep::Open => false,
        SetupStep::Configure => true,
    };
    Setup::Fail { close, message }
}

/// What the writer waits for.
#[derive(Clone, Copy, Debug, PartialEq, Eq, Structural)]
pub enum Stage {
    /// A buffer to render or to write.
    Ready,
    /// A pause before the next write.
    Pause,
    /// The restart of a device that ran dry. Holds what the write returned.
    Restart(i64),
    /// One attempt to resume a suspended device.
    Resume,
    /// The restart of a device that did not resume. Holds what resuming
    /// returned.
    Recover(i32),
    /// The end: a write failed with this result.
    WriteFailed(i64),
    /// The end: resuming failed with this result.
    ResumeFailed(i32),
}

/// What the thread has to do next.
#[derive(Clone, Copy, Debug, PartialEq, Eq, Structural)]
pub enum PcmAction {
    /// Render a buffer.
    Render,
    /// Write `frames` frames, from frame `first` of the buffer on.
    Write { first: u64, frames: u64 },
    /// Sleep for `RETRY_MS`.
    Sleep,
    /// Prepare the device.
    Prepare,
    /// Resume the device.
    Resume,
    /// Stop with an error.
    Stop,
}

/// State of the writer.
#[derive(Clone, Copy, Debug, PartialEq, Eq, Structural)]
pub struct Pcm {
    /// Frames of the buffer that the device has taken.
    pub sent: u64,
    pub stage: Stage,
    pub codes: ErrorCodes,
}

impl Pcm {
    /// The codes are those of the platform. A buffer in progress has something
    /// left to write, unless the device claims to have taken more than it was
    /// given.
    pub open spec fn wf(self) -> bool {
        &&& platform(self.codes)
        &&& self.sent <= BUFFER_FRAMES + i64::MAX
        &&& self.stage != Stage::Ready ==> self.sent < BUFFER_FRAMES
    }

    /// A writer with nothing rendered yet, and the codes of the platform.
    pub fn new() -> (r: Pcm)
        ensures
            r.wf(),
            platform(r.codes),
            r.sent == BUFFER_FRAMES,
            r.stage == Stage::Ready,
    {
        Pcm { sent: BUFFER_FRAMES, stage: Stage::Ready, codes: platform_codes() }
    }

    /// What has to be done next.
    pub open spec fn next_action(self) -> PcmAction {
        match self.stage {
            Stage::Ready => if self.sent < BUFFER_FRAMES {
                PcmAction::Write { first: self.sent, frames: (BUFFER_FRAMES - self.sent) as u64 }
            } else {
                PcmAction::Render
            },
            Stage::Pause => PcmAction::Sleep,
            Stage::Restart(_) | Stage::Recover(_) => PcmAction::Prepare,
            Stage::Resume => PcmAction::Resume,
            Stage::WriteFailed(_) | Stage::ResumeFailed(_) => PcmAction::Stop,
        }
    }

    /// What has to be done next.
    pub fn action(&self) -> (r: PcmAction)
        ensures
            r == self.next_action(),
    {
        match self.stage {
            Stage::Ready => if self.sent < BUFFER_FRAMES {
                PcmAction::Write { first: self.sent, frames: BUFFER_FRAMES - self.sent }
            } else {
                PcmAction::Render
            },
            Stage::Pause => PcmAction::Sleep,
            Stage::Restart(_) | Stage::Recover(_) => PcmAction::Prepare,
            Stage::Resume => PcmAction::Resume,
            Stage::WriteFailed(_) | Stage::ResumeFailed(_) => PcmAction::Stop,
        }
    }

    /// A buffer has been rendered.
    pub fn rendered(&mut self)
        requires
            old(self).wf(),
            old(self).next_action() == PcmAction::Render,
        ensures
            final(self).wf(),
            *final(self) == (Pcm { sent: 0, ..*old(self) }),
    {
        self.sent = 0;
    }

    /// The stage that the result of a write leads to.
    pub open spec fn stage_after_write(self, count: i64) -> Stage {
        if count > 0 {
            Stage::Ready
        } else if count == -self.codes.again || count == 0 {
            Stage::Pause
        } else if count == -self.codes.broken_pipe {
            Stage::Restart(count)
        } else if count == -self.codes.interrupted {
            Stage::Ready
        } else if count == -self.codes.suspended {
            Stage::Resume
        } else {
            Stage::WriteFailed(count)
        }
    }

    /// A write returned. A positive result counts the frames that were taken.
    pub fn wrote(&mut self, count: i64)
        requires
            old(self).wf(),
            old(self).next_action() is Write,
        ensures
            final(self).wf(),
            *final(self) == (Pcm {
                sent: if count > 0 {
                    (old(self).sent + count) as u64
                } else {
                    old(self).sent
                },
                stage: old(self).stage_after_write(count),
                ..*old(self)
            }),
    {
        if count > 0 {
            self.sent = self.sent + count as u64;
        } else if count == -(self.codes.again as i64) || count == 0 {
            self.stage = Stage::Pause;
        } else if count == -(self.codes.broken_pipe as i64) {
            self.stage = Stage::Restart(count);
        } else if count == -(self.codes.interrupted as i64) {
            // Interrupted: retry without discarding the buffer.
        } else if count == -(self.codes.suspended as i64) {
            self.stage = Stage::Resume;
        } else {
            self.stage = Stage::WriteFailed(count);
        }
    }

    /// The pause is over.
    pub fn slept(&mut self)
        requires
            old(self).wf(),
            old(self).stage == Stage::Pause,
        ensures
            final(self).wf(),
            *final(self) == (Pcm { stage: Stage::Ready, ..*old(self) }),
    {
        self.stage = Stage::Ready;
    }

    /// The stage that the result of preparing leads to: a device that cannot
    /// be prepared fails with what had called for it.
    pub open spec fn stage_after_prepare(self, status: i32) -> Stage {
        if status >= 0 {
            Stage::Ready
        } else {
            match self.stage {
                Stage::Restart(count) => Stage::WriteFailed(count),
                Stage::Recover(status) => Stage::ResumeFailed(status),
                other => other,
            }
        }
    }

    /// Preparing the device returned. Unwritten samples are retained.
    pub fn prepared(&mut self, status: i32)
        requires
            old(self).wf(),
            old(self).next_action() == PcmAction::Prepare,
        ensures
            final(self).wf(),
            *final(self) == (Pcm { stage: old(self).stage_after_prepare(status), ..*old(self) }),
    {
        if status >= 0 {
            self.stage = Stage::Ready;
        } else {
            match self.stage {
                Stage::Restart(count) => {
                    self.stage = Stage::WriteFailed(count);
                },
                Stage::Recover(status) => {
                    self.stage = Stage::ResumeFailed(status);
                },
                _ => {},
            }
        }
    }

    /// The stage that the result of resuming leads to.
    pub open spec fn stage_after_resume(self, status: i32) -> Stage {
        if status == -self.codes.again {
            Stage::Pause
        } else if status < 0 {
            Stage::Recover(status)
        } else {
            Stage::Ready
        }
    }

    /// One attempt to resume returned. One attempt at a time keeps suspension
    /// and shutdown responsive.
    pub fn resumed(&mut self, status: i32)
        requires
            old(self).wf(),
            old(self).stage == Stage::Resume,
        ensures
            final(self).wf(),
            *final(self) == (Pcm { stage: old(self).stage_after_resume(status), ..*old(self) }),
    {
        if status == -self.codes.again {
            self.stage = Stage::Pause;
        } else if status < 0 {
            self.stage = Stage::Recover(status);
        } else {
            self.stage = Stage::Ready;
        }
    }

    /// Message of a failure.
    pub open spec fn message(self) -> Option<Seq<char>> {
        match self.stage {
            Stage::WriteFailed(count) => Some(
                "PCM write failed ("@ + text::signed_decimal(count as int) + ")"@,
            ),
            Stage::ResumeFailed(status) => Some(
                "PCM resume failed ("@ + text::signed_decimal(status as int) + ")"@,
            ),
            _ => None,
        }
    }

    /// Why the writer stopped, where it did.
    pub fn failure(&self) -> (r: Option<String>)
        ensures
            match r {
                Some(s) => self.message() == Some(s@),
                None => self.message() is None,
            },
    {
        match self.stage {
            Stage::WriteFailed(count) => {
                let mut out: String = "PCM write failed (".to_owned();
                text::push_signed(&mut out, count);
                out.append(")");
                Some(out)
            },
            Stage::ResumeFailed(status) => {
                let mut out: String = "PCM resume failed (".to_owned();
                text::push_signed(&mut out, status as i64);
                out.append(")");
                Some(out)
            },
            _ => None,
        }
    }
}

/// No sample is lost or repeated: a write starts where the device stopped
/// taking frames, and ends at the end of the buffer. Only a positive result
/// of a write moves that place.
pub proof fn writes_are_contiguous(pcm: Pcm, count: i64, status: i32)
    requires
        pcm.wf(),
        pcm.next_action() is Write,
    ensures
        pcm.next_action() matches PcmAction::Write { first, frames } ==> first == pcm.sent && first
            + frames == BUFFER_FRAMES && frames > 0,
        count <= 0 ==> ({
            let after = Pcm { stage: pcm.stage_after_write(count), ..pcm };
            after.stage == Stage::Ready ==> after.next_action() == pcm.next_action()
        }),
{
}

/// A device that only runs dry, is full, interrupted or suspended never ends
/// the sound: as long as it can be prepared, the writer goes on.
pub proof fn recoverable_errors_recover(pcm: Pcm, count: i64, status: i32)
    requires
        pcm.wf(),
        pcm.next_action() is Write,
        count >= 0 || count == -pcm.codes.again || count == -pcm.codes.broken_pipe || count
            == -pcm.codes.interrupted || count == -pcm.codes.suspended,
    ensures
        ({
            let after = Pcm { stage: pcm.stage_after_write(count), ..pcm };
            &&& after.next_action() != PcmAction::Stop
            &&& after.next_action() == PcmAction::Prepare && status >= 0
                ==> after.stage_after_prepare(status) == Stage::Ready
            &&& after.next_action() == PcmAction::Resume ==> {
                let resumed = Pcm { stage: after.stage_after_resume(status), ..after };
                resumed.next_action() != PcmAction::Stop
            }
        }),
{
}

/// On Linux a write that returns -11 or 0 is tried again after a pause, one
/// that returns -32 after the device was prepared, and one that returns -4 at
/// once. One more number, which the architecture picks, calls for an attempt
/// to resume. Any other negative result stops the writer.
pub proof fn error_numbers_are_told_apart(pcm: Pcm, count: i64)
    requires
        pcm.wf(),
        pcm.codes.again == 11,
    ensures
        pcm.stage_after_write((-11) as i64) == Stage::Pause,
        pcm.stage_after_write(0) == Stage::Pause,
        pcm.stage_after_write((-32) as i64) == Stage::Restart((-32) as i64),
        pcm.stage_after_write((-4) as i64) == Stage::Ready,
        pcm.stage_after_write(count) == Stage::Resume <==> count == -pcm.codes.suspended,
        pcm.stage_after_write(count) == Stage::Resume ==> count == -86 || count == -91 || count
            == -92 || count == -143,
        pcm.stage_after_write(count) == Stage::WriteFailed(count) <==> count < 0 && count != -11
            && count != -32 && count != -4 && count != -pcm.codes.suspended,
        pcm.stage_after_resume((-11) as i32) == Stage::Pause,
{
}

/// Where the device is full is reported as 6, the other numbers are those of
/// the same platform: 64 for one that ran dry, 27 for an interruption and 135
/// for a suspended one.
pub proof fn other_error_numbers_are_told_apart(pcm: Pcm, count: i64)
    requires
        pcm.wf(),
        pcm.codes.again != 11,
    ensures
        pcm.stage_after_write((-6) as i64) == Stage::Pause,
        pcm.stage_after_write(0) == Stage::Pause,
        pcm.stage_after_write((-64) as i64) == Stage::Restart((-64) as i64),
        pcm.stage_after_write((-27) as i64) == Stage::Ready,
        pcm.stage_after_write((-135) as i64) == Stage::Resume,
        pcm.stage_after_write(count) == Stage::WriteFailed(count) <==> count < 0 && count != -6
            && count != -64 && count != -27 && count != -135,
        pcm.stage_after_resume((-6) as i32) == Stage::Pause,
{
}

/// A writer that stops says why, and one that goes on says nothing: what failed,
/// and the number that the device gave. Opening, configuring, writing and
/// resuming are told apart.
pub proof fn failures_are_told(pcm: Pcm, status: i32, other: i32)
    requires
        pcm.wf(),
    ensures
        pcm.message() is Some <==> pcm.next_action() == PcmAction::Stop,
        setup_message(SetupStep::Open, status) == "PCM device unavailable ("@
            + text::signed_decimal(status as int) + ")"@,
        setup_message(SetupStep::Configure, status) == "PCM configuration failed ("@
            + text::signed_decimal(status as int) + ")"@,
        setup_message(SetupStep::Open, status) != setup_message(SetupStep::Configure, other),
        pcm.stage == Stage::ResumeFailed(status) ==> pcm.message() == Some(
            "PCM resume failed ("@ + text::signed_decimal(status as int) + ")"@,
        ),
        pcm.stage == Stage::WriteFailed(status as i64) ==> pcm.message() == Some(
            "PCM write failed ("@ + text::signed_decimal(status as int) + ")"@,
        ),
{
    reveal_strlit("PCM device unavailable (");
    reveal_strlit("PCM configuration failed (");
    let (a, b) = (
        setup_message(SetupStep::Open, status),
        setup_message(SetupStep::Configure, other),
    );
    assert(a[4] == 'd' && b[4] == 'c');
}

/// What calls for the device to be prepared is kept for the case that it cannot
/// be: the number of the failed write, or of the failed attempt to resume. A
/// pause, a resumed device and a prepared one go on where they were.
pub proof fn failed_recoveries_keep_their_cause(pcm: Pcm, count: i64, status: i32, refused: i32)
    requires
        pcm.wf(),
        pcm.next_action() is Write,
        refused < 0,
    ensures
        count == -pcm.codes.broken_pipe ==> (Pcm {
            stage: pcm.stage_after_write(count),
            ..pcm
        }).stage_after_prepare(refused) == Stage::WriteFailed(count),
        status < 0 && status != -pcm.codes.again ==> (Pcm {
            stage: pcm.stage_after_resume(status),
            ..pcm
        }).stage_after_prepare(refused) == Stage::ResumeFailed(status),
        status >= 0 ==> pcm.stage_after_resume(status) == Stage::Ready,
        count > 0 ==> pcm.stage_after_write(count) == Stage::Ready,
{
}

} // verus!
