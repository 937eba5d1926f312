use std::collections::HashSet;

use mercy::locations::{known_spiral_positions, parse_known_locations};
use mercy::pattern::{
    grid_scan_positions, multi_spiral_positions, spiral_drag_steps, spiral_ring_positions,
    spiral_scan_positions, wide_spiral_positions,
};

#[test]
fn test_spiral_scan_positions_center_first() {
    let positions = spiral_scan_positions(512, 512, 25, 1);
    assert_eq!(positions[0], (512, 512));
}

#[test]
fn test_spiral_scan_positions_count() {
    // 1 center + 8r per ring: 1 + 8 + 16 + 24 + 32 = 81
    let positions = spiral_scan_positions(512, 512, 25, 4);
    assert_eq!(positions.len(), 81);
}

#[test]
fn test_spiral_scan_positions_within_bounds() {
    let positions = spiral_scan_positions(512, 512, 25, 4);
    for &(x, y) in &positions {
        assert!(x <= 1023, "x={x} out of bounds");
        assert!(y <= 1023, "y={y} out of bounds");
    }
}

#[test]
fn test_spiral_scan_positions_no_duplicates() {
    let positions = spiral_scan_positions(512, 512, 25, 4);
    let mut seen = HashSet::new();
    for &pos in &positions {
        assert!(seen.insert(pos), "duplicate position: {pos:?}");
    }
}

#[test]
fn test_spiral_scan_positions_clamped_near_edge() {
    // Center near corner: positions clamp to [0, 1023]
    let positions = spiral_scan_positions(10, 10, 25, 2);
    for &(x, y) in &positions {
        assert!(x <= 1023, "x={x} out of bounds");
        assert!(y <= 1023, "y={y} out of bounds");
    }
}

#[test]
fn test_multi_spiral_no_duplicates() {
    let positions = multi_spiral_positions(25, 4);
    let mut seen = HashSet::new();
    for &pos in &positions {
        assert!(seen.insert(pos), "duplicate position: {pos:?}");
    }
}

#[test]
fn test_multi_spiral_within_bounds() {
    let positions = multi_spiral_positions(25, 4);
    for &(x, y) in &positions {
        assert!(x <= 1023, "x={x} out of bounds");
        assert!(y <= 1023, "y={y} out of bounds");
    }
}

#[test]
fn test_multi_spiral_starts_with_centers() {
    let positions = multi_spiral_positions(25, 4);
    assert_eq!(positions[0], (512, 512));
    assert_eq!(positions[1], (150, 150));
    assert_eq!(positions[2], (874, 150));
    assert_eq!(positions[3], (150, 874));
    assert_eq!(positions[4], (874, 874));
    assert_eq!(positions[5], (512, 150));
    assert_eq!(positions[6], (150, 512));
    assert_eq!(positions[7], (874, 512));
    assert_eq!(positions[8], (512, 874));
}

#[test]
fn test_multi_spiral_count() {
    // 9 spirals x 81 = 729, minus overlaps
    let positions = multi_spiral_positions(25, 4);
    assert!(
        positions.len() >= 600 && positions.len() <= 729,
        "expected ~650 positions, got {}",
        positions.len()
    );
}

#[test]
fn test_multi_spiral_interleaving() {
    // After the 9 centers comes ring 1 of the middle spiral.
    let positions = multi_spiral_positions(25, 2);
    let ring1_start = positions[9];
    let dx = (ring1_start.0 as i32 - 512).abs();
    let dy = (ring1_start.1 as i32 - 512).abs();
    assert!(dx <= 25 && dy <= 25, "ring 1 should start near center spiral: {ring1_start:?}");
}

#[test]
fn test_wide_spiral_count() {
    // step=50, 5 rings: 1 + 8 + 16 + 24 + 32 + 40 = 121
    let positions = wide_spiral_positions(5);
    assert_eq!(positions.len(), 121);
}

#[test]
fn test_wide_spiral_within_bounds() {
    let positions = wide_spiral_positions(5);
    for &(x, y) in &positions {
        assert!(x <= 1023, "x={x} out of bounds");
        assert!(y <= 1023, "y={y} out of bounds");
    }
}

#[test]
fn test_wide_spiral_no_duplicates() {
    let positions = wide_spiral_positions(5);
    let mut seen = HashSet::new();
    for &pos in &positions {
        assert!(seen.insert(pos), "duplicate position: {pos:?}");
    }
}

#[test]
fn test_grid_within_bounds() {
    let positions = grid_scan_positions();
    for &(x, y) in &positions {
        assert!(x >= 30 && x <= 970, "x={x} out of expected range");
        assert!(y >= 30 && y <= 970, "y={y} out of expected range");
    }
}

#[test]
fn test_grid_no_duplicates() {
    let positions = grid_scan_positions();
    let mut seen = HashSet::new();
    for &pos in &positions {
        assert!(seen.insert(pos), "duplicate position: {pos:?}");
    }
}

#[test]
fn test_grid_count() {
    let positions = grid_scan_positions();
    assert_eq!(positions.len(), 1024);
}

#[test]
fn test_grid_uniform_spacing() {
    let positions = grid_scan_positions();
    let first_y = positions[0].1;
    let first_row: Vec<u32> = positions.iter().filter(|p| p.1 == first_y).map(|p| p.0).collect();
    for w in first_row.windows(2) {
        assert_eq!(w[1] - w[0], 30, "expected uniform step of 30");
    }
}

#[test]
fn test_known_spiral_with_locations() {
    // The list's text, as read from its file.
    let contents = "111,100,200\n112,800,900\n111,100,200\n";
    let positions = known_spiral_positions(Some(contents), 25, 1);

    assert_eq!(positions[0], (100, 200));
    assert_eq!(positions[1], (800, 900));

    let mut seen = HashSet::new();
    for &pos in &positions {
        assert!(seen.insert(pos), "duplicate position: {pos:?}");
    }

    assert!(positions.len() >= 10 && positions.len() <= 18, "expected 10-18 positions, got {}", positions.len());

    for &(x, y) in &positions {
        assert!(x <= 1023, "x={x} out of bounds");
        assert!(y <= 1023, "y={y} out of bounds");
    }
}

#[test]
fn test_known_spiral_fallback() {
    // An unreadable file reaches the generator as no text.
    let positions = known_spiral_positions(None, 25, 1);
    assert_eq!(positions.len(), grid_scan_positions().len());
}

#[test]
fn test_known_spiral_none_fallback() {
    let positions = known_spiral_positions(None, 25, 1);
    assert_eq!(positions.len(), grid_scan_positions().len());
}

#[test]
fn test_parse_known_locations_kxy() {
    let contents = "111,100,200\n112,800,900\n111,100,200\n";
    let locs = parse_known_locations(contents);
    assert_eq!(locs, vec![(100, 200), (800, 900)]);
}

#[test]
fn test_parse_known_locations_legacy_xy() {
    let contents = "100,200\n800,900\n";
    let locs = parse_known_locations(contents);
    assert_eq!(locs, vec![(100, 200), (800, 900)]);
}

#[test]
fn test_parse_known_locations_comments_and_blanks() {
    let contents = "# header\n\n111,100,200\n  \n112,800,900\n";
    let locs = parse_known_locations(contents);
    assert_eq!(locs, vec![(100, 200), (800, 900)]);
}

#[test]
fn test_spiral_drag_steps_center() {
    let steps = spiral_drag_steps(1);
    assert_eq!(steps[0], (0, 0));
    assert!(steps.len() > 1);
}

#[test]
fn test_spiral_drag_steps_count() {
    let steps = spiral_drag_steps(1);
    assert_eq!(steps.len(), 1 + 8);
    let steps = spiral_drag_steps(2);
    assert_eq!(steps.len(), 1 + 8 + 1 + 16);
}

#[test]
fn spiral_scenario_single_ring() {
    let positions = spiral_scan_positions(512, 512, 25, 1);
    assert_eq!(positions[0], (512, 512));
    assert_eq!(positions.len(), 9);
    assert_eq!(
        positions,
        vec![(512, 512), (537, 487), (537, 512), (537, 537), (512, 537), (487, 537), (487, 512), (487, 487), (512, 487)]
    );
}

#[test]
fn ring_has_eight_r_distinct_positions() {
    for r in 1..=5u32 {
        let ring = spiral_ring_positions(512, 512, 25, r);
        assert_eq!(ring.len(), 8 * r as usize);
        let set: HashSet<_> = ring.iter().copied().collect();
        assert_eq!(set.len(), ring.len());
        assert!(ring.iter().all(|&(x, y)| x <= 1023 && y <= 1023));
    }
}

#[test]
fn ring_clamps_at_world_edge() {
    let ring = spiral_ring_positions(1020, 0, 25, 1);
    assert_eq!(ring[0], (1023, 0));
    assert_eq!(ring[2], (1023, 25));
}

#[test]
fn grid_first_and_last() {
    let g = grid_scan_positions();
    assert_eq!(g[0], (30, 30));
    assert_eq!(g[31], (960, 30));
    assert_eq!(g[32], (30, 60));
    assert_eq!(g[1023], (960, 960));
}

#[test]
fn known_spiral_empty_text_falls_back_to_grid() {
    let positions = known_spiral_positions(Some("# nothing here\n\n"), 25, 2);
    assert_eq!(positions, grid_scan_positions());
}

#[test]
fn known_spiral_missing_falls_back_to_grid_exactly() {
    assert_eq!(known_spiral_positions(None, 25, 3), grid_scan_positions());
}

#[test]
fn parse_known_locations_skips_malformed_lines() {
    let contents = "1,2,3,4\nabc,5\n  7 , 8 \r\n9,99999999999\n+3,4\n";
    assert_eq!(parse_known_locations(contents), vec![(7, 8), (3, 4)]);
}

#[test]
fn drag_steps_ring_one() {
    assert_eq!(spiral_drag_steps(1), vec![(0, 0), (1, 0), (0, -1), (-1, 0), (-1, 0), (0, 1), (0, 1), (1, 0), (1, 0)]);
}
