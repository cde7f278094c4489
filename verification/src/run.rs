//! The course of a run: which output frame is due, and how the run ends.

use vstd::prelude::*;

verus! {

/// How a run ended.
#[derive(Clone, Copy, Debug, PartialEq, Eq, Structural)]
pub enum RunOutcome {
    /// Every output frame was written.
    Complete { frames: usize },
    /// The run stopped early; `written` frames were written before.
    Aborted { written: usize },
}

/// Where a run stands.
#[derive(Clone, Copy, Debug, PartialEq, Eq, Structural)]
pub enum RunState {
    /// Output frame `next` of `total` is due.
    Rendering { next: usize, total: usize },
    /// The run is over.
    Done(RunOutcome),
}

/// What happened to the output frame that was due.
#[derive(Clone, Copy, Debug, PartialEq, Eq, Structural)]
pub enum RunEvent {
    /// The frame was assembled and written.
    FrameSaved,
    /// The frame could not be encoded or written.
    SaveFailed,
    /// The run was cancelled before the frame was assembled.
    Cancelled,
}

/// The state of a run of `total` output frames before the first one.
pub open spec fn start_spec(total: usize) -> RunState {
    if total == 0 {
        RunState::Done(RunOutcome::Complete { frames: 0 })
    } else {
        RunState::Rendering { next: 0, total }
    }
}

/// The state after `event`: a saved frame makes the next one due, or
/// completes the run if it was the last; a failure or a cancellation aborts
/// the run; a run that is over stays as it is.
pub open spec fn step_spec(state: RunState, event: RunEvent) -> RunState {
    match state {
        RunState::Done(_) => state,
        RunState::Rendering { next, total } => match event {
            RunEvent::FrameSaved => if next + 1 >= total {
                RunState::Done(RunOutcome::Complete { frames: total })
            } else {
                RunState::Rendering { next: (next + 1) as usize, total }
            },
            _ => RunState::Done(RunOutcome::Aborted { written: next }),
        },
    }
}

/// The state after all of `events`, in order.
pub open spec fn run_spec(state: RunState, events: Seq<RunEvent>) -> RunState
    decreases events.len(),
{
    if events.len() == 0 {
        state
    } else {
        step_spec(run_spec(state, events.drop_last()), events.last())
    }
}

impl RunState {
    /// The state of a run of `total` output frames before the first one.
    pub fn start(total: usize) -> (out: RunState)
        ensures
            out == start_spec(total),
    {
        if total == 0 {
            RunState::Done(RunOutcome::Complete { frames: 0 })
        } else {
            RunState::Rendering { next: 0, total }
        }
    }

    /// The state after `event`.
    pub fn step(self, event: RunEvent) -> (out: RunState)
        ensures
            out == step_spec(self, event),
    {
        match self {
            RunState::Done(_) => self,
            RunState::Rendering { next, total } => match event {
                RunEvent::FrameSaved => {
                    if next >= total || next + 1 >= total {
                        RunState::Done(RunOutcome::Complete { frames: total })
                    } else {
                        RunState::Rendering { next: next + 1, total }
                    }
                },
                _ => RunState::Done(RunOutcome::Aborted { written: next }),
            },
        }
    }
}

/// While a run of `total` frames is under way, as many frames were saved as
/// events came in, and the frame that is due is the next one. A run reports
/// completion only where each of its `total` frames was saved, and an
/// aborted run reports the frames saved before the event that stopped it.
pub proof fn lemma_run_accounts(total: usize, events: Seq<RunEvent>)
    requires
        total > 0,
    ensures
        match run_spec(start_spec(total), events) {
            RunState::Rendering { next, total: of } => {
                &&& of == total
                &&& next == events.len()
                &&& next < total
                &&& forall|i: int| 0 <= i < events.len() ==> events[i] == RunEvent::FrameSaved
            },
            RunState::Done(RunOutcome::Complete { frames }) => {
                &&& frames == total
                &&& events.len() >= total
                &&& forall|i: int| 0 <= i < total ==> events[i] == RunEvent::FrameSaved
            },
            RunState::Done(RunOutcome::Aborted { written }) => {
                &&& written < total
                &&& written < events.len()
                &&& events[written as int] != RunEvent::FrameSaved
                &&& forall|i: int| 0 <= i < written ==> events[i] == RunEvent::FrameSaved
            },
        },
    decreases events.len(),
{
    if events.len() > 0 {
        let earlier = events.drop_last();
        lemma_run_accounts(total, earlier);
        assert forall|i: int| 0 <= i < earlier.len() implies earlier[i] == events[i] by {}
        let before = run_spec(start_spec(total), earlier);
        assert(run_spec(start_spec(total), events) == step_spec(before, events.last()));
        match before {
            RunState::Rendering { next, total: of } => {
                assert(events[next as int] == events.last());
            },
            RunState::Done(RunOutcome::Complete { frames }) => {},
            RunState::Done(RunOutcome::Aborted { written }) => {
                assert(earlier[written as int] == events[written as int]);
            },
        }
    }
}

} // verus!
