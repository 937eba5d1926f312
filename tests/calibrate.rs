use mercy::calibrate::{default_calibration, offset_position, pixel_to_game_offset, pixel_to_world_offset, Calibration};

#[test]
fn center_pixel_is_zero_offset() {
    assert_eq!(pixel_to_game_offset(760, 400), (0, 0));
}

#[test]
fn offsets_round_to_nearest() {
    // 50 px right: 50 / 49.40 = 1.01 units; tilt moves y by 0.05 units.
    assert_eq!(pixel_to_game_offset(810, 400), (1, 0));
    // 100 px left, 57 px down: dx = -2.02 -> -2; dy = (57 - 3.04) / 28.32 = 1.91 -> 2.
    assert_eq!(pixel_to_game_offset(660, 457), (-2, 2));
}

#[test]
fn forward_then_back_recovers_world_offset() {
    // World offset (10, 5): 494 px right, -15 + 141.6 = 126.6 -> 127 px down.
    assert_eq!(pixel_to_game_offset(760 + 494, 400 + 127), (10, 5));
    // World offset (-3, -7): -148.2 -> -148 px; 4.5 - 198.24 = -193.74 -> -194 px.
    assert_eq!(pixel_to_game_offset(760 - 148, 400 - 194), (-3, -7));
}

#[test]
fn custom_calibration_is_used() {
    let cal = Calibration { center_x: 100, center_y: 100, px_per_unit_x: 1000, px_per_unit_y: 1000, tilt_y: 0 };
    assert_eq!(pixel_to_world_offset(&cal, 125, 74), (3, -3));
    assert_eq!(default_calibration().px_per_unit_x, 4940);
}

#[test]
fn offset_position_clamps() {
    assert_eq!(offset_position(1020, 5, 10, -10), (1023, 0));
    assert_eq!(offset_position(500, 500, -3, 4), (497, 504));
}
