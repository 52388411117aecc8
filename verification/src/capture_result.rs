use vstd::prelude::*;

verus! {

/// Outcome of one capture attempt, reported by the backend alongside each
/// frame callback. `Success` guarantees a usable frame; the error variants
/// carry no frame and differ only in severity.
#[derive(Clone, Copy, PartialEq, Eq, Structural, Debug)]
pub enum CaptureResult {
    /// A frame was captured and accompanies this result.
    Success,
    /// A recoverable error (for instance a frame dropped during a display
    /// mode change); capture continues.
    ErrorTemporary,
    /// An unrecoverable backend failure; the session must stop.
    ErrorPermanent,
    /// The platform's own capture UI was dismissed or denied by the user;
    /// the session stops as a normal termination.
    ErrorUserStopped,
}

impl CaptureResult {
    /// A fatal result ends the session: no further frames can follow it.
    pub open spec fn is_fatal(self) -> bool {
        self is ErrorPermanent || self is ErrorUserStopped
    }
}

/// The meaning of a backend result code: codes 0 through 3 are the four
/// outcomes in declaration order, and any unknown code is treated as a
/// permanent error.
pub open spec fn spec_capture_result_from_sys(code: i32) -> CaptureResult {
    if code == 0 {
        CaptureResult::Success
    } else if code == 1 {
        CaptureResult::ErrorTemporary
    } else if code == 2 {
        CaptureResult::ErrorPermanent
    } else if code == 3 {
        CaptureResult::ErrorUserStopped
    } else {
        CaptureResult::ErrorPermanent
    }
}

/// Translates a raw backend result code. The backend's code space is open
/// (it is a foreign enumeration), so every unknown code maps to
/// `ErrorPermanent`.
pub fn capture_result_from_sys(code: i32) -> (r: CaptureResult)
    ensures
        r == spec_capture_result_from_sys(code),
{
    if code == 0 {
        CaptureResult::Success
    } else if code == 1 {
        CaptureResult::ErrorTemporary
    } else if code == 2 {
        CaptureResult::ErrorPermanent
    } else if code == 3 {
        CaptureResult::ErrorUserStopped
    } else {
        CaptureResult::ErrorPermanent
    }
}

} // verus!
