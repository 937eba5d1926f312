//! The scanner's phase machine: how each control command moves the single
//! process-wide phase, and what the scan loop does in each phase.
use vstd::prelude::*;

verus! {

/// The scanner's single authoritative phase.
#[derive(Debug, Clone, Copy, PartialEq, Eq, Structural)]
pub enum ScannerPhase {
    Idle,
    Preparing,
    Ready,
    Scanning,
    Paused,
}

/// A command refused in the current phase.
#[derive(Debug, Clone, Copy, PartialEq, Eq, Structural)]
pub enum PhaseError {
    Conflict,
}

/// What the scan loop does before its next step.
#[derive(Debug, Clone, Copy, PartialEq, Eq, Structural)]
pub enum LoopStep {
    /// Go on scanning.
    Proceed,
    /// Block until woken, then look at the phase again.
    Wait,
    /// Leave the loop.
    Halt,
}

/// `start`: resume a paused scan; from `Idle` or `Ready`, scan directly when a
/// viewport session exists, else prepare one first. Refused while scanning or
/// preparing.
pub fn on_start(phase: ScannerPhase, has_session: bool) -> (r: Result<ScannerPhase, PhaseError>)
    ensures
        r == match phase {
            ScannerPhase::Paused => Ok(ScannerPhase::Scanning),
            ScannerPhase::Idle | ScannerPhase::Ready => if has_session {
                Ok(ScannerPhase::Scanning)
            } else {
                Ok(ScannerPhase::Preparing)
            },
            ScannerPhase::Scanning | ScannerPhase::Preparing => Err(PhaseError::Conflict),
        },
{
    match phase {
        ScannerPhase::Paused => Ok(ScannerPhase::Scanning),
        ScannerPhase::Idle | ScannerPhase::Ready => {
            if has_session {
                Ok(ScannerPhase::Scanning)
            } else {
                Ok(ScannerPhase::Preparing)
            }
        },
        ScannerPhase::Scanning | ScannerPhase::Preparing => Err(PhaseError::Conflict),
    }
}

/// `pause`: a scan pauses; pausing again while paused changes nothing; any
/// other phase refuses.
pub fn on_pause(phase: ScannerPhase) -> (r: Result<ScannerPhase, PhaseError>)
    ensures
        r == match phase {
            ScannerPhase::Scanning | ScannerPhase::Paused => Ok(ScannerPhase::Paused),
            _ => Err(PhaseError::Conflict),
        },
{
    match phase {
        ScannerPhase::Scanning | ScannerPhase::Paused => Ok(ScannerPhase::Paused),
        _ => Err(PhaseError::Conflict),
    }
}

/// `stop`: back to `Ready` while a viewport session is kept warm, else `Idle`.
pub fn on_stop(has_session: bool) -> (r: ScannerPhase)
    ensures
        r == if has_session { ScannerPhase::Ready } else { ScannerPhase::Idle },
{
    if has_session {
        ScannerPhase::Ready
    } else {
        ScannerPhase::Idle
    }
}

/// `logout`: the session is torn down; from any phase, `Idle`.
pub fn on_logout(_phase: ScannerPhase) -> (r: ScannerPhase)
    ensures
        r == ScannerPhase::Idle,
{
    ScannerPhase::Idle
}

/// `prepare`: from `Idle`, start preparing a session; `Ready` and `Paused`
/// already have one and stay; refused while preparing or scanning.
pub fn on_prepare(phase: ScannerPhase) -> (r: Result<ScannerPhase, PhaseError>)
    ensures
        r == match phase {
            ScannerPhase::Idle => Ok(ScannerPhase::Preparing),
            ScannerPhase::Ready | ScannerPhase::Paused => Ok(phase),
            ScannerPhase::Preparing | ScannerPhase::Scanning => Err(PhaseError::Conflict),
        },
{
    match phase {
        ScannerPhase::Idle => Ok(ScannerPhase::Preparing),
        ScannerPhase::Ready | ScannerPhase::Paused => Ok(phase),
        ScannerPhase::Preparing | ScannerPhase::Scanning => Err(PhaseError::Conflict),
    }
}

/// The end of preparing: `Ready` on success; on failure `Idle`, whatever
/// the phase had become.
pub fn on_prepare_done(phase: ScannerPhase, succeeded: bool) -> (r: ScannerPhase)
    ensures
        r == if !succeeded {
            ScannerPhase::Idle
        } else if phase == ScannerPhase::Preparing {
            ScannerPhase::Ready
        } else {
            phase
        },
{
    if !succeeded {
        ScannerPhase::Idle
    } else if phase == ScannerPhase::Preparing {
        ScannerPhase::Ready
    } else {
        phase
    }
}

/// What the scan loop does in `phase`: scan on, wait while paused, or leave.
pub fn loop_step(phase: ScannerPhase) -> (r: LoopStep)
    ensures
        r == match phase {
            ScannerPhase::Scanning => LoopStep::Proceed,
            ScannerPhase::Paused => LoopStep::Wait,
            _ => LoopStep::Halt,
        },
{
    match phase {
        ScannerPhase::Scanning => LoopStep::Proceed,
        ScannerPhase::Paused => LoopStep::Wait,
        _ => LoopStep::Halt,
    }
}

} // verus!
