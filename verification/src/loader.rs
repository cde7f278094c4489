//! Bookkeeping of a load: which files decoded, whether the decoded images
//! agree in size, and whether enough of them are left.

use crate::frame::{Dimensions, MIN_FRAMES};
use vstd::prelude::*;

verus! {

/// What decoding one input file gave.
#[derive(Clone, Copy, Debug, PartialEq, Eq, Structural)]
pub enum Decoded {
    /// The file is no image that the decoder reads; it is skipped.
    Failed,
    /// The file decoded to an image of these dimensions.
    Image(Dimensions),
}

/// Why a load cannot feed a run.
#[derive(Clone, Copy, Debug, PartialEq, Eq, Structural)]
pub enum LoadError {
    /// A decoded image differs in size from the first one.
    DimensionMismatch,
    /// Fewer than two images are usable.
    InsufficientFrames,
}

/// The state of a load between two files.
#[derive(Clone, Copy, Debug, PartialEq, Eq, Structural)]
pub struct LoadState {
    /// The dimensions of the first decoded image, once there is one.
    pub dimensions: Option<Dimensions>,
    /// How many files decoded.
    pub loaded: usize,
    /// How many files were skipped.
    pub skipped: usize,
}

/// The result of a load that can feed a run.
#[derive(Clone, Copy, Debug, PartialEq, Eq, Structural)]
pub struct LoadSummary {
    /// The dimensions that all frames share.
    pub dimensions: Dimensions,
    /// How many frames were loaded.
    pub loaded: usize,
    /// How many files were skipped.
    pub skipped: usize,
}

/// How many of the outcomes are decoded images.
pub open spec fn decoded_count(outcomes: Seq<Decoded>) -> nat
    decreases outcomes.len(),
{
    if outcomes.len() == 0 {
        0
    } else {
        decoded_count(outcomes.drop_last()) + if outcomes.last() is Image {
            1nat
        } else {
            0nat
        }
    }
}

/// Whether all decoded images among the outcomes have the same dimensions.
pub open spec fn homogeneous(outcomes: Seq<Decoded>) -> bool {
    forall|i: int, j: int|
        0 <= i < outcomes.len() && 0 <= j < outcomes.len() && outcomes[i] is Image
            && outcomes[j] is Image ==> outcomes[i] == outcomes[j]
}

/// Whether every decoded image among the outcomes has the given dimensions.
pub open spec fn all_sized(outcomes: Seq<Decoded>, dimensions: Dimensions) -> bool {
    forall|i: int|
        0 <= i < outcomes.len() && outcomes[i] is Image ==> outcomes[i] == Decoded::Image(
            dimensions,
        )
}

/// The state after one more file: a failure is counted as skipped; the first
/// image fixes the dimensions; a later image has to match them.
pub open spec fn record_spec(state: LoadState, outcome: Decoded) -> Result<LoadState, LoadError> {
    match outcome {
        Decoded::Failed => Ok(
            LoadState { skipped: (state.skipped + 1) as usize, ..state },
        ),
        Decoded::Image(dimensions) => match state.dimensions {
            Some(first) if first != dimensions => Err(LoadError::DimensionMismatch),
            _ => Ok(
                LoadState {
                    dimensions: Some(dimensions),
                    loaded: (state.loaded + 1) as usize,
                    skipped: state.skipped,
                },
            ),
        },
    }
}

/// What a load in this state amounts to once no file is left.
pub open spec fn finish_spec(state: LoadState) -> Result<LoadSummary, LoadError> {
    match state.dimensions {
        Some(dimensions) if state.loaded >= MIN_FRAMES => Ok(
            LoadSummary { dimensions, loaded: state.loaded, skipped: state.skipped },
        ),
        _ => Err(LoadError::InsufficientFrames),
    }
}

impl LoadState {
    /// The state before the first file.
    pub fn new() -> (out: LoadState)
        ensures
            out == (LoadState { dimensions: None, loaded: 0, skipped: 0 }),
    {
        LoadState { dimensions: None, loaded: 0, skipped: 0 }
    }

    /// Takes in the outcome of one more file. A mismatch in size is fatal
    /// to the load.
    pub fn record(self, outcome: Decoded) -> (out: Result<LoadState, LoadError>)
        requires
            self.loaded < usize::MAX,
            self.skipped < usize::MAX,
        ensures
            out == record_spec(self, outcome),
    {
        match outcome {
            Decoded::Failed => Ok(
                LoadState {
                    dimensions: self.dimensions,
                    loaded: self.loaded,
                    skipped: self.skipped + 1,
                },
            ),
            Decoded::Image(dimensions) => {
                if let Some(first) = self.dimensions {
                    if first.width != dimensions.width || first.height != dimensions.height {
                        return Err(LoadError::DimensionMismatch);
                    }
                }
                Ok(
                    LoadState {
                        dimensions: Some(dimensions),
                        loaded: self.loaded + 1,
                        skipped: self.skipped,
                    },
                )
            },
        }
    }

    /// Closes the load: it can feed a run if at least two images decoded.
    pub fn finish(self) -> (out: Result<LoadSummary, LoadError>)
        ensures
            out == finish_spec(self),
    {
        match self.dimensions {
            Some(dimensions) => {
                if self.loaded >= MIN_FRAMES {
                    Ok(LoadSummary { dimensions, loaded: self.loaded, skipped: self.skipped })
                } else {
                    Err(LoadError::InsufficientFrames)
                }
            },
            None => Err(LoadError::InsufficientFrames),
        }
    }
}

/// Runs a whole load over the outcomes of its files, in input order.
///
/// The load fails with `DimensionMismatch` exactly if two decoded images
/// differ in size, and otherwise with `InsufficientFrames` exactly if fewer
/// than two files decoded. A load that succeeds reports the common
/// dimensions, the number of frames and the number of skipped files.
pub fn load(outcomes: &[Decoded]) -> (out: Result<LoadSummary, LoadError>)
    ensures
        match out {
            Err(LoadError::DimensionMismatch) => !homogeneous(outcomes@),
            Err(LoadError::InsufficientFrames) => homogeneous(outcomes@) && decoded_count(
                outcomes@,
            ) < MIN_FRAMES,
            Ok(summary) => {
                &&& homogeneous(outcomes@)
                &&& all_sized(outcomes@, summary.dimensions)
                &&& summary.loaded == decoded_count(outcomes@)
                &&& summary.loaded >= MIN_FRAMES
                &&& summary.loaded + summary.skipped == outcomes@.len()
            },
        },
{
    let mut state = LoadState::new();
    let mut i: usize = 0;
    let ghost mut seen: int = 0;
    while i < outcomes.len()
        invariant
            i <= outcomes@.len(),
            state.loaded == decoded_count(outcomes@.take(i as int)),
            state.loaded + state.skipped == i,
            state.dimensions is None <==> state.loaded == 0,
            state.loaded > 0 ==> 0 <= seen < i && outcomes@[seen] is Image,
            state.loaded == 0 ==> forall|k: int| 0 <= k < i ==> outcomes@[k] is Failed,
            state.dimensions matches Some(first) ==> all_sized(outcomes@.take(i as int), first),
        decreases outcomes@.len() - i,
    {
        let outcome = outcomes[i];
        let ghost before = outcomes@.take(i as int);
        let ghost after = outcomes@.take(i + 1);
        proof {
            assert(after.drop_last() =~= before);
            assert(after.last() == outcome);
        }
        match state.record(outcome) {
            Ok(next) => {
                proof {
                    if outcome is Image {
                        seen = i as int;
                    }
                    if next.dimensions is Some {
                        let first = next.dimensions->0;
                        assert forall|k: int|
                            0 <= k < after.len() && after[k] is Image implies after[k]
                            == Decoded::Image(first) by {
                            if k < i {
                                assert(before[k] == after[k]);
                                assert(outcomes@[k] == after[k]);
                            }
                        }
                    }
                }
                state = next;
            },
            Err(error) => {
                proof {
                    assert(before[seen] == outcomes@[seen]);
                    assert(outcomes@[seen] != outcomes@[i as int]);
                }
                return Err(error);
            },
        }
        i += 1;
    }
    proof {
        assert(outcomes@.take(i as int) =~= outcomes@);
    }
    state.finish()
}

} // verus!
