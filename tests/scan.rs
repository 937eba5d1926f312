use mercy::config::{clamp_coverage, parse_flag, parse_kingdoms, ConfigError};
use mercy::detect::TemplateMatch;
use mercy::pattern::{grid_scan_positions, multi_spiral_positions, spiral_scan_positions};
use mercy::scan::{
    confirm_outcome, cooldown_action, estimate_position, outcome_exchange, pattern_positions, refine_estimate,
    still_present, str_eq, ConfirmOutcome, CooldownAction, Evidence, Refinement, COOLDOWN_MS,
};

#[test]
fn pattern_names_select_generators() {
    assert_eq!(pattern_positions("single", None, None), spiral_scan_positions(512, 512, 25, 4));
    assert_eq!(pattern_positions("multi", Some(2), None), multi_spiral_positions(25, 2));
    assert_eq!(pattern_positions("wide", None, None).len(), 1 + 4 * 9 * 10);
    assert_eq!(pattern_positions("grid", None, None), grid_scan_positions());
    assert_eq!(pattern_positions("bogus", Some(3), None), grid_scan_positions());
    assert_eq!(pattern_positions("known", None, None), grid_scan_positions());
    assert_eq!(pattern_positions("known", None, Some("1,100,200\n")).len(), 9);
}

#[test]
fn cooldown_decisions() {
    assert_eq!(cooldown_action(1_000_000, None, Some((1, 2))), CooldownAction::FullScan);
    assert_eq!(cooldown_action(1_000_000, Some(1_000_000 - COOLDOWN_MS), Some((1, 2))), CooldownAction::FullScan);
    assert_eq!(
        cooldown_action(1_000_000, Some(1_000_000 - 20_000), Some((1, 2))),
        CooldownAction::Reverify { x: 1, y: 2, remaining_ms: 100_000 }
    );
    assert_eq!(
        cooldown_action(1_000_000, Some(1_000_000 - 20_000), None),
        CooldownAction::WaitThenScan { remaining_ms: 100_000 }
    );
}

#[test]
fn presence_needs_center_and_score() {
    assert!(still_present(Some(TemplateMatch { x: 760, y: 400, score: 900_000 })));
    assert!(still_present(Some(TemplateMatch { x: 839, y: 321, score: 950_000 })));
    assert!(!still_present(Some(TemplateMatch { x: 840, y: 400, score: 950_000 })));
    assert!(!still_present(Some(TemplateMatch { x: 760, y: 400, score: 899_999 })));
    assert!(!still_present(None));
}

#[test]
fn estimate_and_refine() {
    // 494 px right and 127 px down of center is world offset (10, 5).
    assert_eq!(estimate_position(500, 500, 1254, 527), (510, 505));
    assert_eq!(estimate_position(1020, 0, 1254, 273), (1023, 0));
    let r = refine_estimate(510, 505, Some(TemplateMatch { x: 810, y: 400, score: 1 }));
    assert_eq!(r, Refinement { x: 511, y: 505, click_x: 810, click_y: 400 });
    let r = refine_estimate(510, 505, None);
    assert_eq!(r, Refinement { x: 510, y: 505, click_x: 760, click_y: 400 });
}

#[test]
fn confirm_outcomes() {
    let refined = Refinement { x: 511, y: 505, click_x: 770, click_y: 410 };
    let strong = Some(TemplateMatch { x: 770, y: 410, score: 950_000 });
    let weak = Some(TemplateMatch { x: 770, y: 410, score: 800_000 });
    assert_eq!(
        confirm_outcome(111, Some((112, 506, 2000)), weak, refined),
        ConfirmOutcome { kingdom: 112, x: 506, y: 1023, evidence: Evidence::Popup }
    );
    assert_eq!(
        confirm_outcome(111, None, strong, refined),
        ConfirmOutcome { kingdom: 111, x: 511, y: 505, evidence: Evidence::Calibration }
    );
    assert_eq!(
        confirm_outcome(111, None, weak, refined),
        ConfirmOutcome { kingdom: 111, x: 511, y: 505, evidence: Evidence::Rejected }
    );
}

#[test]
fn outcome_becomes_exchange() {
    let o = ConfirmOutcome { kingdom: 111, x: 5, y: 6, evidence: Evidence::Calibration };
    let e = outcome_exchange(o, 77, Some(1500), None).unwrap();
    assert_eq!((e.kingdom, e.x, e.y, e.found_at, e.confirmed), (111, 5, 6, 77, false));
    let o = ConfirmOutcome { kingdom: 111, x: 5, y: 6, evidence: Evidence::Popup };
    assert!(outcome_exchange(o, 77, None, None).unwrap().confirmed);
    let o = ConfirmOutcome { kingdom: 111, x: 5, y: 6, evidence: Evidence::Rejected };
    assert!(outcome_exchange(o, 77, None, None).is_none());
}

#[test]
fn strings_compare_by_characters() {
    assert!(str_eq("multi", "multi"));
    assert!(!str_eq("multi", "mult"));
}

#[test]
fn kingdom_lists() {
    assert_eq!(parse_kingdoms("111, 112,113"), Ok(vec![111, 112, 113]));
    assert_eq!(parse_kingdoms("111,x"), Err(ConfigError::InvalidKingdoms(String::from("x"))));
    assert!(matches!(parse_kingdoms(""), Err(ConfigError::InvalidKingdoms(_))));
    assert!(matches!(parse_kingdoms("111,"), Err(ConfigError::InvalidKingdoms(_))));
}

#[test]
fn flags_and_coverage() {
    assert!(parse_flag("1"));
    assert!(parse_flag("TRUE"));
    assert!(parse_flag("true"));
    assert!(!parse_flag("yes"));
    assert!(!parse_flag("0"));
    assert_eq!(clamp_coverage(0), 1);
    assert_eq!(clamp_coverage(250), 100);
    assert_eq!(clamp_coverage(80), 80);
}
