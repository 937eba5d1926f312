use mercy::phase::{loop_step, on_logout, on_pause, on_prepare, on_prepare_done, on_start, on_stop, LoopStep, PhaseError, ScannerPhase};

#[test]
fn phase_sequence_with_conflicts() {
    let mut p = ScannerPhase::Idle;
    assert_eq!(on_pause(p), Err(PhaseError::Conflict));
    p = on_start(p, false).unwrap();
    assert_eq!(p, ScannerPhase::Preparing);
    assert_eq!(on_start(p, false), Err(PhaseError::Conflict));
    assert_eq!(on_pause(p), Err(PhaseError::Conflict));
    p = on_prepare_done(p, true);
    assert_eq!(p, ScannerPhase::Ready);
    assert_eq!(on_pause(p), Err(PhaseError::Conflict));
    p = on_start(p, true).unwrap();
    assert_eq!(p, ScannerPhase::Scanning);
    assert_eq!(on_start(p, true), Err(PhaseError::Conflict));
    p = on_pause(p).unwrap();
    assert_eq!(p, ScannerPhase::Paused);
    assert_eq!(on_pause(p), Ok(ScannerPhase::Paused));
    p = on_start(p, true).unwrap();
    assert_eq!(p, ScannerPhase::Scanning);
}

#[test]
fn prepare_failure_returns_to_idle() {
    let p = on_prepare(ScannerPhase::Idle).unwrap();
    assert_eq!(p, ScannerPhase::Preparing);
    assert_eq!(on_prepare_done(p, false), ScannerPhase::Idle);
    assert_eq!(on_prepare(ScannerPhase::Scanning), Err(PhaseError::Conflict));
    assert_eq!(on_prepare(ScannerPhase::Ready), Ok(ScannerPhase::Ready));
}

#[test]
fn stop_and_logout() {
    assert_eq!(on_stop(true), ScannerPhase::Ready);
    assert_eq!(on_stop(false), ScannerPhase::Idle);
    assert_eq!(on_logout(ScannerPhase::Scanning), ScannerPhase::Idle);
}

#[test]
fn start_with_session_skips_preparing() {
    assert_eq!(on_start(ScannerPhase::Idle, true), Ok(ScannerPhase::Scanning));
    assert_eq!(on_start(ScannerPhase::Ready, false), Ok(ScannerPhase::Preparing));
}

#[test]
fn loop_steps() {
    assert_eq!(loop_step(ScannerPhase::Scanning), LoopStep::Proceed);
    assert_eq!(loop_step(ScannerPhase::Paused), LoopStep::Wait);
    assert_eq!(loop_step(ScannerPhase::Ready), LoopStep::Halt);
}
