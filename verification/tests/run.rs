use spiralizer::run::{RunEvent, RunOutcome, RunState};

#[test]
fn run_starts_with_the_first_frame() {
    assert_eq!(RunState::start(4), RunState::Rendering { next: 0, total: 4 });
    assert_eq!(RunState::start(1), RunState::Rendering { next: 0, total: 1 });
    assert_eq!(RunState::start(0), RunState::Done(RunOutcome::Complete { frames: 0 }));
}

#[test]
fn run_completes_after_every_frame_was_saved() {
    let mut state = RunState::start(3);
    state = state.step(RunEvent::FrameSaved);
    assert_eq!(state, RunState::Rendering { next: 1, total: 3 });
    state = state.step(RunEvent::FrameSaved);
    assert_eq!(state, RunState::Rendering { next: 2, total: 3 });
    state = state.step(RunEvent::FrameSaved);
    assert_eq!(state, RunState::Done(RunOutcome::Complete { frames: 3 }));
}

#[test]
fn failed_save_aborts_the_run() {
    let state = RunState::start(3).step(RunEvent::FrameSaved).step(RunEvent::SaveFailed);
    assert_eq!(state, RunState::Done(RunOutcome::Aborted { written: 1 }));
    let state = RunState::start(3).step(RunEvent::SaveFailed);
    assert_eq!(state, RunState::Done(RunOutcome::Aborted { written: 0 }));
    let last = RunState::Rendering { next: 2, total: 3 }.step(RunEvent::SaveFailed);
    assert_eq!(last, RunState::Done(RunOutcome::Aborted { written: 2 }));
}

#[test]
fn cancellation_aborts_the_run() {
    let state = RunState::start(5)
        .step(RunEvent::FrameSaved)
        .step(RunEvent::FrameSaved)
        .step(RunEvent::Cancelled);
    assert_eq!(state, RunState::Done(RunOutcome::Aborted { written: 2 }));
}

#[test]
fn finished_run_ignores_further_events() {
    let complete = RunState::Done(RunOutcome::Complete { frames: 2 });
    assert_eq!(complete.step(RunEvent::FrameSaved), complete);
    assert_eq!(complete.step(RunEvent::SaveFailed), complete);
    assert_eq!(complete.step(RunEvent::Cancelled), complete);
    let aborted = RunState::Done(RunOutcome::Aborted { written: 1 });
    assert_eq!(aborted.step(RunEvent::FrameSaved), aborted);
    assert_eq!(aborted.step(RunEvent::Cancelled), aborted);
}

#[test]
fn aborted_run_never_reports_completion() {
    let mut state = RunState::start(4).step(RunEvent::FrameSaved).step(RunEvent::SaveFailed);
    for _ in 0..10 {
        state = state.step(RunEvent::FrameSaved);
    }
    assert_eq!(state, RunState::Done(RunOutcome::Aborted { written: 1 }));
}

#[test]
fn state_at_the_limit_does_not_overflow() {
    let state = RunState::Rendering { next: usize::MAX, total: 3 };
    assert_eq!(
        state.step(RunEvent::FrameSaved),
        RunState::Done(RunOutcome::Complete { frames: 3 })
    );
    let last = RunState::Rendering { next: usize::MAX - 1, total: usize::MAX };
    assert_eq!(
        last.step(RunEvent::FrameSaved),
        RunState::Done(RunOutcome::Complete { frames: usize::MAX })
    );
}
