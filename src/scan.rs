//! Decisions of the scan orchestrator: which positions to visit, what the
//! cooldown asks for, whether a known exchange is still there, and what a
//! confirmation attempt yields. The navigation, screenshots and clicks
//! between them are made by the caller.
use vstd::prelude::*;
use crate::calibrate::{default_calibration_spec, offset_position, offset_position_spec, pixel_offset_spec, pixel_to_game_offset};
use crate::detect::TemplateMatch;
use crate::locations::known_spiral_positions;
use crate::pattern::{
    clamp_coord, grid_scan_positions, grid_spec, interleaved_spec, multi_centers, multi_spiral_positions,
    spiral_scan_positions, spiral_spec, wide_spiral_positions,
};
use crate::store::MercExchange;
use crate::text::chars_of;
use crate::locations::known_locations;

verus! {

/// World units between neighbouring scan positions.
pub const SCAN_STEP: u32 = 25;

/// Shortest time between two full scans of a kingdom with a known exchange:
/// two minutes, in milliseconds.
pub const COOLDOWN_MS: i64 = 120_000;

/// A match this close to the screen center on both axes, in pixels, is on target.
pub const CENTER_TOLERANCE: u32 = 80;

/// Score a match near the center needs: 0.90, in millionths.
pub const PRESENT_SCORE: i32 = 900_000;

/// Whether two strings hold the same characters.
pub fn str_eq(a: &str, b: &str) -> (r: bool)
    ensures
        r == (a@ == b@),
{
    let x = chars_of(a);
    let y = chars_of(b);
    if x.len() != y.len() {
        return false;
    }
    let mut i: usize = 0;
    while i < x.len()
        invariant
            x@.len() == y@.len(),
            x@ == a@ && y@ == b@,
            i <= x.len(),
            forall|k: int| 0 <= k < i ==> x@[k] == y@[k],
        decreases x.len() - i,
    {
        if x[i] != y[i] {
            assert(x@[i as int] != y@[i as int]);
            return false;
        }
        i = i + 1;
    }
    assert(x@ =~= y@);
    true
}

/// The positions of the configured pattern: "single" spiral, "multi"
/// spirals, "wide" spiral, "known" spirals over the known-locations text, or
/// the grid for "grid" and any other name. Ring counts default per pattern.
pub open spec fn pattern_spec(pattern: Seq<char>, rings: Option<u32>, known: Option<Seq<char>>) -> Seq<(u32, u32)> {
    if pattern == "single"@ {
        spiral_spec(512, 512, SCAN_STEP as int, rings.unwrap_or(4) as nat)
    } else if pattern == "multi"@ {
        interleaved_spec(multi_centers(), SCAN_STEP as int, rings.unwrap_or(4) as nat)
    } else if pattern == "wide"@ {
        spiral_spec(512, 512, 50, rings.unwrap_or(9) as nat)
    } else if pattern == "known"@ {
        match known {
            None => grid_spec(),
            Some(c) => if known_locations(c).len() == 0 {
                grid_spec()
            } else {
                interleaved_spec(known_locations(c), SCAN_STEP as int, rings.unwrap_or(1) as nat)
            },
        }
    } else {
        grid_spec()
    }
}

/// Positions for one full scan of a kingdom under the configured pattern.
/// `known` is the known-locations text, `None` when it could not be read.
pub fn pattern_positions(pattern: &str, scan_rings: Option<u32>, known: Option<&str>) -> (r: Vec<(u32, u32)>)
    ensures
        r@ == pattern_spec(pattern@, scan_rings, match known { Some(k) => Some(k@), None => None }),
{
    if str_eq(pattern, "single") {
        spiral_scan_positions(512, 512, SCAN_STEP, scan_rings.unwrap_or(4))
    } else if str_eq(pattern, "multi") {
        multi_spiral_positions(SCAN_STEP, scan_rings.unwrap_or(4))
    } else if str_eq(pattern, "wide") {
        wide_spiral_positions(scan_rings.unwrap_or(9))
    } else if str_eq(pattern, "known") {
        known_spiral_positions(known, SCAN_STEP, scan_rings.unwrap_or(1))
    } else {
        grid_scan_positions()
    }
}

/// What to do with a kingdom before scanning it.
#[derive(Debug, Clone, Copy, PartialEq, Eq, Structural)]
pub enum CooldownAction {
    /// Scan it in full now.
    FullScan,
    /// Look at the known exchange at `(x, y)`; if it is still there, wait
    /// `remaining_ms` and move on, else scan in full.
    Reverify { x: u32, y: u32, remaining_ms: u64 },
    /// Wait `remaining_ms`, then scan in full.
    WaitThenScan { remaining_ms: u64 },
}

/// Time left of the cooldown after `elapsed`, in milliseconds, as a `u64`.
pub open spec fn remaining_spec(elapsed: int) -> u64 {
    if COOLDOWN_MS - elapsed > u64::MAX {
        u64::MAX
    } else {
        (COOLDOWN_MS - elapsed) as u64
    }
}

/// The cooldown rule: a kingdom scanned less than two minutes ago is not
/// scanned again at once; with a known exchange it is re-verified, without
/// one the rest of the cooldown is waited out first.
pub fn cooldown_action(now: i64, last_scan: Option<i64>, known: Option<(u32, u32)>) -> (r: CooldownAction)
    ensures
        r == match last_scan {
            None => CooldownAction::FullScan,
            Some(last) => if now - last >= COOLDOWN_MS {
                CooldownAction::FullScan
            } else {
                match known {
                    Some((x, y)) => CooldownAction::Reverify { x, y, remaining_ms: remaining_spec(now - last) },
                    None => CooldownAction::WaitThenScan { remaining_ms: remaining_spec(now - last) },
                }
            },
        },
{
    match last_scan {
        None => CooldownAction::FullScan,
        Some(last) => {
            let elapsed = now as i128 - last as i128;
            if elapsed >= COOLDOWN_MS as i128 {
                return CooldownAction::FullScan;
            }
            let left = COOLDOWN_MS as i128 - elapsed;
            let remaining_ms: u64 = if left > u64::MAX as i128 { u64::MAX } else { left as u64 };
            match known {
                Some((x, y)) => CooldownAction::Reverify { x, y, remaining_ms },
                None => CooldownAction::WaitThenScan { remaining_ms },
            }
        },
    }
}

/// Whether a match lies on target: within the tolerance of the screen
/// center on both axes, with at least the presence score.
pub open spec fn on_target(m: TemplateMatch) -> bool {
    let c = default_calibration_spec();
    let dx = if m.x >= c.center_x { m.x - c.center_x } else { c.center_x - m.x };
    let dy = if m.y >= c.center_y { m.y - c.center_y } else { c.center_y - m.y };
    dx < CENTER_TOLERANCE && dy < CENTER_TOLERANCE && m.score >= PRESENT_SCORE
}

/// Whether the best match of a screenshot taken at a known exchange shows it
/// still there.
pub fn still_present(best: Option<TemplateMatch>) -> (r: bool)
    ensures
        r == match best {
            Some(m) => on_target(m),
            None => false,
        },
{
    match best {
        Some(m) => {
            let dx = if m.x >= 760 { m.x - 760 } else { 760 - m.x };
            let dy = if m.y >= 400 { m.y - 400 } else { 400 - m.y };
            dx < CENTER_TOLERANCE && dy < CENTER_TOLERANCE && m.score >= PRESENT_SCORE
        },
        None => false,
    }
}

/// World position of a pixel hit on a screenshot taken after navigating to
/// `(nav_x, nav_y)`: the calibrated offset added, clamped into the world.
pub open spec fn estimate_spec(nav_x: u32, nav_y: u32, pixel_x: u32, pixel_y: u32) -> (u32, u32) {
    let d = pixel_offset_spec(default_calibration_spec(), pixel_x as int, pixel_y as int);
    offset_position_spec(nav_x as int, nav_y as int, d.0 as int, d.1 as int)
}

/// Estimated world position of a pixel hit.
pub fn estimate_position(nav_x: u32, nav_y: u32, pixel_x: u32, pixel_y: u32) -> (r: (u32, u32))
    ensures
        r == estimate_spec(nav_x, nav_y, pixel_x, pixel_y),
{
    let (dx, dy) = pixel_to_game_offset(pixel_x, pixel_y);
    offset_position(nav_x, nav_y, dx, dy)
}

/// The estimate after re-detection at it, and where to click.
#[derive(Debug, Clone, Copy, PartialEq, Eq, Structural)]
pub struct Refinement {
    pub x: u32,
    pub y: u32,
    pub click_x: u32,
    pub click_y: u32,
}

/// Refines an estimate by the calibration match found after navigating to
/// it: its offset from the center corrects the estimate, and it is where to
/// click; without a match the estimate stands and the click goes to the center.
pub fn refine_estimate(est_x: u32, est_y: u32, calibration: Option<TemplateMatch>) -> (r: Refinement)
    ensures
        r == match calibration {
            Some(m) => {
                let p = estimate_spec(est_x, est_y, m.x, m.y);
                Refinement { x: p.0, y: p.1, click_x: m.x, click_y: m.y }
            },
            None => Refinement { x: est_x, y: est_y, click_x: 760, click_y: 400 },
        },
{
    match calibration {
        Some(m) => {
            let (x, y) = estimate_position(est_x, est_y, m.x, m.y);
            Refinement { x, y, click_x: m.x, click_y: m.y }
        },
        None => Refinement { x: est_x, y: est_y, click_x: 760, click_y: 400 },
    }
}

/// The evidence behind a confirmation attempt's result.
#[derive(Debug, Clone, Copy, PartialEq, Eq, Structural)]
pub enum Evidence {
    /// Coordinates read from the popup.
    Popup,
    /// A strong calibration match at the screen center.
    Calibration,
    /// Neither; nothing is stored.
    Rejected,
}

/// The result of a confirmation attempt: where, and on what evidence.
#[derive(Debug, Clone, Copy, PartialEq, Eq, Structural)]
pub struct ConfirmOutcome {
    pub kingdom: u32,
    pub x: u32,
    pub y: u32,
    pub evidence: Evidence,
}

/// Decides a confirmation attempt: coordinates read from the popup win and
/// are clamped into the world; else a calibration match on target stores
/// the refined estimate, unconfirmed; else nothing is stored, and the
/// refined estimate is only logged.
pub fn confirm_outcome(
    kingdom: u32,
    popup: Option<(u32, u32, u32)>,
    calibration: Option<TemplateMatch>,
    refined: Refinement,
) -> (r: ConfirmOutcome)
    ensures
        r == match popup {
            Some((k, x, y)) => ConfirmOutcome { kingdom: k, x: clamp_coord(x as int), y: clamp_coord(y as int), evidence: Evidence::Popup },
            None => if (match calibration { Some(m) => on_target(m), None => false }) {
                ConfirmOutcome { kingdom, x: refined.x, y: refined.y, evidence: Evidence::Calibration }
            } else {
                ConfirmOutcome { kingdom, x: refined.x, y: refined.y, evidence: Evidence::Rejected }
            },
        },
{
    match popup {
        Some((k, x, y)) => {
            let cx: u32 = if x > 1023 { 1023 } else { x };
            let cy: u32 = if y > 1023 { 1023 } else { y };
            ConfirmOutcome { kingdom: k, x: cx, y: cy, evidence: Evidence::Popup }
        },
        None => {
            if still_present(calibration) {
                ConfirmOutcome { kingdom, x: refined.x, y: refined.y, evidence: Evidence::Calibration }
            } else {
                ConfirmOutcome { kingdom, x: refined.x, y: refined.y, evidence: Evidence::Rejected }
            }
        },
    }
}

/// The exchange a confirmation stores, if any: confirmed when read from the
/// popup, unconfirmed when estimated.
pub fn outcome_exchange(
    outcome: ConfirmOutcome,
    found_at: i64,
    scan_duration_ms: Option<u64>,
    screenshot_png: Option<Vec<u8>>,
) -> (r: Option<MercExchange>)
    ensures
        outcome.evidence == Evidence::Rejected <==> r is None,
        r matches Some(e) ==> e.kingdom == outcome.kingdom && e.x == outcome.x && e.y == outcome.y
            && e.found_at == found_at && e.scan_duration_ms == scan_duration_ms
            && e.confirmed == (outcome.evidence == Evidence::Popup) && e.screenshot_png == screenshot_png,
{
    match outcome.evidence {
        Evidence::Rejected => None,
        _ => Some(
            MercExchange {
                kingdom: outcome.kingdom,
                x: outcome.x,
                y: outcome.y,
                found_at,
                scan_duration_ms,
                confirmed: outcome.evidence == Evidence::Popup,
                screenshot_png,
            },
        ),
    }
}

} // verus!
