use spiralizer::frame::Dimensions;
use spiralizer::loader::{load, Decoded, LoadError, LoadState, LoadSummary};

const SMALL: Dimensions = Dimensions { width: 4, height: 4 };
const WIDE: Dimensions = Dimensions { width: 8, height: 4 };
const TALL: Dimensions = Dimensions { width: 4, height: 8 };

#[test]
fn load_counts_frames_and_skipped_files() {
    let outcomes = [
        Decoded::Failed,
        Decoded::Image(SMALL),
        Decoded::Image(SMALL),
        Decoded::Failed,
        Decoded::Image(SMALL),
    ];
    assert_eq!(load(&outcomes), Ok(LoadSummary { dimensions: SMALL, loaded: 3, skipped: 2 }));
    let outcomes = [Decoded::Image(WIDE), Decoded::Image(WIDE)];
    assert_eq!(load(&outcomes), Ok(LoadSummary { dimensions: WIDE, loaded: 2, skipped: 0 }));
}

#[test]
fn load_aborts_on_a_frame_of_another_size() {
    let outcomes = [Decoded::Image(SMALL), Decoded::Image(SMALL), Decoded::Image(WIDE)];
    assert_eq!(load(&outcomes), Err(LoadError::DimensionMismatch));
    let outcomes = [Decoded::Image(SMALL), Decoded::Image(TALL)];
    assert_eq!(load(&outcomes), Err(LoadError::DimensionMismatch));
    let outcomes = [Decoded::Image(SMALL), Decoded::Failed, Decoded::Image(TALL), Decoded::Failed];
    assert_eq!(load(&outcomes), Err(LoadError::DimensionMismatch));
    let outcomes = [Decoded::Failed, Decoded::Image(WIDE), Decoded::Image(SMALL), Decoded::Image(WIDE)];
    assert_eq!(load(&outcomes), Err(LoadError::DimensionMismatch));
}

#[test]
fn load_needs_two_frames() {
    assert_eq!(load(&[]), Err(LoadError::InsufficientFrames));
    assert_eq!(load(&[Decoded::Failed, Decoded::Failed]), Err(LoadError::InsufficientFrames));
    assert_eq!(load(&[Decoded::Image(SMALL)]), Err(LoadError::InsufficientFrames));
    assert_eq!(
        load(&[Decoded::Failed, Decoded::Image(SMALL), Decoded::Failed]),
        Err(LoadError::InsufficientFrames)
    );
}

#[test]
fn first_image_fixes_the_dimensions() {
    let start = LoadState::new();
    assert_eq!(start, LoadState { dimensions: None, loaded: 0, skipped: 0 });
    let one = start.record(Decoded::Image(WIDE)).unwrap();
    assert_eq!(one, LoadState { dimensions: Some(WIDE), loaded: 1, skipped: 0 });
    let two = one.record(Decoded::Image(WIDE)).unwrap();
    assert_eq!(two, LoadState { dimensions: Some(WIDE), loaded: 2, skipped: 0 });
    assert_eq!(two.record(Decoded::Image(SMALL)), Err(LoadError::DimensionMismatch));
    assert_eq!(two.record(Decoded::Image(TALL)), Err(LoadError::DimensionMismatch));
}

#[test]
fn failed_file_is_skipped_and_counted() {
    let start = LoadState::new();
    let one = start.record(Decoded::Failed).unwrap();
    assert_eq!(one, LoadState { dimensions: None, loaded: 0, skipped: 1 });
    let two = one.record(Decoded::Image(SMALL)).unwrap();
    let three = two.record(Decoded::Failed).unwrap();
    assert_eq!(three, LoadState { dimensions: Some(SMALL), loaded: 1, skipped: 2 });
}

#[test]
fn empty_image_fixes_the_dimensions_too() {
    let empty = Dimensions { width: 0, height: 0 };
    let one = LoadState::new().record(Decoded::Image(empty)).unwrap();
    assert_eq!(one.dimensions, Some(empty));
    assert_eq!(one.record(Decoded::Image(SMALL)), Err(LoadError::DimensionMismatch));
}

#[test]
fn finish_needs_two_frames() {
    assert_eq!(LoadState::new().finish(), Err(LoadError::InsufficientFrames));
    let one = LoadState { dimensions: Some(SMALL), loaded: 1, skipped: 5 };
    assert_eq!(one.finish(), Err(LoadError::InsufficientFrames));
    let two = LoadState { dimensions: Some(SMALL), loaded: 2, skipped: 5 };
    assert_eq!(two.finish(), Ok(LoadSummary { dimensions: SMALL, loaded: 2, skipped: 5 }));
    let odd = LoadState { dimensions: None, loaded: 3, skipped: 0 };
    assert_eq!(odd.finish(), Err(LoadError::InsufficientFrames));
}

#[test]
fn load_is_the_fold_of_its_steps() {
    let outcomes = [
        Decoded::Image(TALL),
        Decoded::Failed,
        Decoded::Image(TALL),
        Decoded::Image(TALL),
        Decoded::Failed,
    ];
    let mut state = LoadState::new();
    for outcome in outcomes {
        state = state.record(outcome).unwrap();
    }
    assert_eq!(state.finish(), load(&outcomes));
    assert_eq!(load(&outcomes), Ok(LoadSummary { dimensions: TALL, loaded: 3, skipped: 2 }));
}
