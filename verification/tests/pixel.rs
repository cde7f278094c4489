use spiralizer::pixel::{composite, Rgb, OPAQUE};

const RED: Rgb = Rgb { r: 255, g: 0, b: 0 };
const GREEN: Rgb = Rgb { r: 0, g: 255, b: 0 };

#[test]
fn with_alpha_appends_the_alpha_channel() {
    let pixel = Rgb { r: 10, g: 20, b: 30 };
    assert_eq!(pixel.with_alpha(OPAQUE), [10, 20, 30, 255]);
    assert_eq!(pixel.with_alpha(0), [10, 20, 30, 0]);
    assert_eq!(pixel.with_alpha(128), [10, 20, 30, 128]);
}

#[test]
fn from_rgba_drops_the_alpha_channel() {
    assert_eq!(Rgb::from_rgba([1, 2, 3, 4]), Rgb { r: 1, g: 2, b: 3 });
    assert_eq!(Rgb::from_rgba([255, 0, 128, 0]), Rgb { r: 255, g: 0, b: 128 });
}

#[test]
fn composite_at_half_weight_mixes_both_pixels_equally() {
    assert_eq!(composite(RED, GREEN, 128), Rgb { r: 127, g: 128, b: 0 });
    assert_eq!(composite(GREEN, RED, 128), Rgb { r: 128, g: 127, b: 0 });
    let black = Rgb { r: 0, g: 0, b: 0 };
    let white = Rgb { r: 255, g: 255, b: 255 };
    assert_eq!(composite(black, white, 128), Rgb { r: 128, g: 128, b: 128 });
    assert_eq!(composite(white, black, 128), Rgb { r: 127, g: 127, b: 127 });
    let dark = Rgb { r: 100, g: 100, b: 100 };
    let light = Rgb { r: 200, g: 200, b: 200 };
    assert_eq!(composite(dark, light, 128), Rgb { r: 150, g: 150, b: 150 });
    assert_eq!(composite(light, dark, 128), Rgb { r: 149, g: 149, b: 149 });
}

#[test]
fn composite_gives_exact_values_at_other_weights() {
    let primary = Rgb { r: 10, g: 20, b: 30 };
    let neighbor = Rgb { r: 200, g: 100, b: 50 };
    assert_eq!(composite(primary, neighbor, 64), Rgb { r: 57, g: 40, b: 35 });
    assert_eq!(composite(primary, neighbor, 75), Rgb { r: 65, g: 43, b: 35 });
    assert_eq!(composite(RED, GREEN, 75), Rgb { r: 179, g: 75, b: 0 });
    let black = Rgb { r: 0, g: 0, b: 0 };
    let white = Rgb { r: 255, g: 255, b: 255 };
    assert_eq!(composite(black, white, 1), Rgb { r: 1, g: 1, b: 1 });
}

#[test]
fn composite_does_not_hand_back_an_argument() {
    let primary = Rgb { r: 10, g: 20, b: 30 };
    let neighbor = Rgb { r: 200, g: 100, b: 50 };
    let mixed = composite(primary, neighbor, 128);
    assert_ne!(mixed, primary);
    assert_ne!(mixed, neighbor);
    assert_eq!(mixed, Rgb { r: 105, g: 60, b: 40 });
}

#[test]
fn composite_at_zero_weight_keeps_the_primary_pixel() {
    for value in 0..=255u8 {
        let primary = Rgb { r: value, g: 255 - value, b: value / 2 };
        let neighbor = Rgb { r: 255 - value, g: 7, b: 200 };
        assert_eq!(composite(primary, neighbor, 0), primary);
    }
}

#[test]
fn composite_at_full_weight_gives_the_neighbor_pixel() {
    for value in 0..=255u8 {
        let primary = Rgb { r: 9, g: 9, b: 9 };
        let neighbor = Rgb { r: value, g: 255 - value, b: value / 3 };
        assert_eq!(composite(primary, neighbor, 255), neighbor);
    }
}

#[test]
fn composite_stays_between_its_arguments_for_every_channel_and_weight() {
    for alpha in 0..=128u8 {
        for bottom in 0..=255u8 {
            for top in (0..=255u8).step_by(3) {
                let primary = Rgb { r: bottom, g: top, b: bottom };
                let neighbor = Rgb { r: top, g: bottom, b: bottom };
                let mixed = composite(primary, neighbor, alpha);
                let low = bottom.min(top);
                let high = bottom.max(top);
                assert!(mixed.r as i32 >= low as i32 - 1 && mixed.r <= high);
                assert!(mixed.g as i32 >= low as i32 - 1 && mixed.g <= high);
                assert!(mixed.b as i32 >= bottom as i32 - 1 && mixed.b <= bottom);
            }
        }
    }
}

#[test]
fn composite_accepts_every_alpha() {
    for alpha in 0..=255u8 {
        for bottom in (0..=255u8).step_by(5) {
            for top in (0..=255u8).step_by(5) {
                let primary = Rgb { r: bottom, g: bottom, b: top };
                let neighbor = Rgb { r: top, g: bottom, b: bottom };
                let mixed = composite(primary, neighbor, alpha);
                let low = bottom.min(top);
                let high = bottom.max(top);
                assert!(mixed.r as i32 >= low as i32 - 1 && mixed.r <= high);
                assert!(mixed.g as i32 >= bottom as i32 - 1 && mixed.g <= bottom);
                assert!(mixed.b as i32 >= low as i32 - 1 && mixed.b <= high);
            }
        }
    }
}
