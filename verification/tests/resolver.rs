use spiralizer::resolver::resolve;

fn resolved(turn: f64, index: usize, count: usize) -> (usize, Option<usize>, u8) {
    match resolve(turn.to_bits(), index, count) {
        Some(position) => (position.primary(), position.neighbor(count), position.blend_alpha()),
        None => panic!("{} is no angle", turn),
    }
}

#[test]
fn quarter_turn_of_four_frames_is_frame_one() {
    assert_eq!(resolved(0.25, 0, 4), (1, Some(2), 0));
    assert_eq!(resolved(0.0, 0, 4), (0, Some(1), 0));
    assert_eq!(resolved(0.5, 0, 4), (2, Some(3), 0));
    assert_eq!(resolved(0.75, 0, 4), (3, None, 0));
}

#[test]
fn eighth_turn_of_four_frames_is_a_midpoint() {
    assert_eq!(resolved(0.125, 0, 4), (0, Some(1), 128));
    assert_eq!(resolved(0.375, 0, 4), (1, Some(2), 128));
    assert_eq!(resolved(0.875, 0, 4), (3, None, 128));
}

#[test]
fn output_index_rotates_the_reference() {
    assert_eq!(resolved(0.25, 1, 4), (2, Some(3), 0));
    assert_eq!(resolved(0.25, 2, 4), (3, None, 0));
    assert_eq!(resolved(0.25, 3, 4), (0, Some(1), 0));
    assert_eq!(resolved(0.75, 2, 4), (1, Some(2), 0));
    assert_eq!(resolved(0.875, 2, 4), (1, Some(2), 128));
}

#[test]
fn thirds_are_exact() {
    assert_eq!(resolved(0.25, 0, 3), (0, Some(1), 64));
    assert_eq!(resolved(0.25, 1, 3), (1, Some(2), 64));
    assert_eq!(resolved(0.25, 2, 3), (2, None, 64));
    assert_eq!(resolved(0.5, 1, 3), (2, None, 128));
    assert_eq!(resolved(0.5, 2, 3), (0, Some(1), 128));
}

#[test]
fn two_frames_blend_only_in_the_first_half() {
    assert_eq!(resolved(0.375, 0, 2), (0, Some(1), 64));
    assert_eq!(resolved(0.375, 1, 2), (1, None, 64));
    assert_eq!(resolved(0.125, 0, 2), (0, None, 64));
    assert_eq!(resolved(0.125, 1, 2), (1, Some(0), 64));
}

#[test]
fn full_turn_wraps_to_the_start() {
    assert_eq!(resolved(1.0, 0, 4), (0, Some(1), 0));
    assert_eq!(resolved(1.0, 3, 4), (3, None, 0));
    assert_eq!(resolved(1.25, 0, 4), (1, Some(2), 0));
    assert_eq!(resolved(9007199254740992.0, 2, 4), (2, Some(3), 0));
    assert_eq!(resolved(1e300, 7, 4), (3, None, 0));
}

#[test]
fn resolved_position_lies_in_the_sequence() {
    for count in 2..9usize {
        for index in 0..count {
            for step in 0..2000u32 {
                let turn = step as f64 / 2000.0;
                let (primary, neighbor, alpha) = resolved(turn, index, count);
                assert!(primary < count);
                assert!(alpha <= 128);
                if let Some(other) = neighbor {
                    assert!(other < count);
                    assert!(other + 1 == primary || primary + 1 == other);
                }
            }
        }
    }
}

#[test]
fn next_output_index_advances_by_one_frame() {
    for count in 2..7usize {
        for index in 0..count {
            for step in 0..500u32 {
                let turn = step as f64 / 499.0 * 0.999;
                let (here, _, weight) = resolved(turn, index, count);
                let (next, _, next_weight) = resolved(turn, index + 1, count);
                assert_eq!(next, (here + 1) % count);
                assert_eq!(next_weight, weight);
                let (around, _, same_weight) = resolved(turn, index + count, count);
                assert_eq!(around, here);
                assert_eq!(same_weight, weight);
            }
        }
    }
}

#[test]
fn resolved_position_matches_the_formula() {
    for count in [2usize, 3, 4, 5, 8, 16] {
        for index in 0..count {
            for step in 0..256u32 {
                let turn = step as f64 / 256.0;
                let position = ((turn + index as f64 / count as f64) % 1.0) * count as f64;
                if count.is_power_of_two() {
                    let (primary, _, alpha) = resolved(turn, index, count);
                    assert_eq!(primary, position.floor() as usize);
                    assert_eq!(alpha, ((position - position.round()).abs() * 256.0) as u8);
                }
            }
        }
    }
}

#[test]
fn tiny_angles_stay_in_the_first_frame() {
    assert_eq!(resolved(5e-324, 0, 4), (0, None, 0));
    assert_eq!(resolved(1e-300, 0, 4), (0, None, 0));
    assert_eq!(resolved(1e-300, 1, 4), (1, Some(0), 0));
    assert_eq!(resolved(1e-40, 3, 4), (3, Some(2), 0));
    assert_eq!(resolved(5e-324, 0, usize::MAX).0, 0);
}

#[test]
fn many_frames_do_not_overflow() {
    let count = usize::MAX;
    let (primary, _, _) = resolved(0.5, 0, count);
    assert_eq!(primary, count / 2);
    let (wrapped, _, _) = resolved(0.5, count - 1, count);
    assert_eq!(wrapped, count / 2 - 1);
    let (last, neighbor, alpha) = resolved(f64::from_bits(0x3fef_ffff_ffff_ffff), 0, count);
    assert_eq!(last, count - 2048);
    assert!(neighbor.is_some());
    assert!(alpha <= 128);
}

#[test]
fn angle_has_to_be_finite_and_not_negative() {
    assert!(resolve(f64::NAN.to_bits(), 0, 4).is_none());
    assert!(resolve(f64::INFINITY.to_bits(), 0, 4).is_none());
    assert!(resolve((-0.25f64).to_bits(), 0, 4).is_none());
    assert!(resolve(0.25f64.to_bits(), 0, 0).is_none());
    assert!(resolve((-0.0f64).to_bits(), 0, 4).is_some());
    assert!(resolve(0.25f64.to_bits(), 9, 4).is_some());
}
