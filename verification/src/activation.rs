use vstd::prelude::*;

verus! {

/// How an attempt to copy a result's payload to the clipboard ended.
#[derive(Debug, Clone, Copy, PartialEq, Eq, Structural)]
pub enum CopyOutcome {
    /// No handle to the clipboard could be had.
    ClipboardUnavailable,
    /// There was a handle, but the clipboard did not take the payload.
    ClipboardWriteFailure,
    /// The clipboard holds the payload.
    Copied,
}

/// The outcome that `acquired` and `written` stand for.
pub open spec fn outcome_of(acquired: bool, written: bool) -> CopyOutcome {
    if !acquired {
        CopyOutcome::ClipboardUnavailable
    } else if !written {
        CopyOutcome::ClipboardWriteFailure
    } else {
        CopyOutcome::Copied
    }
}

impl CopyOutcome {
    /// Tells the outcome from what the clipboard reported: whether a handle
    /// was acquired and, if so, whether the payload was written through it.
    /// Without a handle nothing is written, whatever `written` says.
    pub fn classify(acquired: bool, written: bool) -> (outcome: CopyOutcome)
        ensures
            outcome == outcome_of(acquired, written),
    {
        if !acquired {
            CopyOutcome::ClipboardUnavailable
        } else if !written {
            CopyOutcome::ClipboardWriteFailure
        } else {
            CopyOutcome::Copied
        }
    }

    /// Whether the payload did not reach the clipboard. A failure is reported
    /// as an error, a success as information; neither reaches the caller.
    pub fn is_failure(&self) -> (failed: bool)
        ensures
            failed == (*self != CopyOutcome::Copied),
    {
        match self {
            CopyOutcome::Copied => false,
            _ => true,
        }
    }
}

} // verus!
