//! Pixel to world coordinate calibration: a fixed affine transform with a
//! tilt term, measured against one reference deployment.
use vstd::prelude::*;
use crate::pattern::clamp_coord;

verus! {

/// Calibration constants. Scales and tilt are in hundredths of a pixel per
/// world unit.
#[derive(Clone, Copy, Debug, PartialEq, Eq)]
pub struct Calibration {
    /// Pixel where the navigated world position appears.
    pub center_x: u32,
    pub center_y: u32,
    /// Horizontal pixels per world x unit, in hundredths.
    pub px_per_unit_x: u32,
    /// Vertical pixels per world y unit, in hundredths.
    pub px_per_unit_y: u32,
    /// Vertical pixel shift per world x unit, in hundredths.
    pub tilt_y: i32,
}

/// The constants of the reference deployment: center (760, 400), 49.40
/// pixels per x unit, 28.32 per y unit, tilt -1.50.
pub open spec fn default_calibration_spec() -> Calibration {
    Calibration {
        center_x: 760,
        center_y: 400,
        px_per_unit_x: 4940,
        px_per_unit_y: 2832,
        tilt_y: -150i32,
    }
}

pub fn default_calibration() -> (r: Calibration)
    ensures
        r == default_calibration_spec(),
{
    Calibration { center_x: 760, center_y: 400, px_per_unit_x: 4940, px_per_unit_y: 2832, tilt_y: -150 }
}

/// `n / d` rounded to the nearest integer, halves away from zero.
pub open spec fn round_div(n: int, d: int) -> int {
    if n >= 0 {
        (2 * n + d) / (2 * d)
    } else {
        -((2 * (-n) + d) / (2 * d))
    }
}

/// `v` saturated into the `i32` range.
pub open spec fn saturate_i32(v: int) -> i32 {
    if v < i32::MIN {
        i32::MIN
    } else if v > i32::MAX {
        i32::MAX
    } else {
        v as i32
    }
}

/// World offset of pixel `(px, py)` from the screen center:
/// `dx = sdx / sx` and `dy = (sdy - tilt * sdx / sx) / sy`, each rounded.
pub open spec fn pixel_offset_spec(c: Calibration, px: int, py: int) -> (i32, i32) {
    let sdx = px - c.center_x;
    let sdy = py - c.center_y;
    let sx = c.px_per_unit_x as int;
    let sy = c.px_per_unit_y as int;
    (
        saturate_i32(round_div(100 * sdx, sx)),
        saturate_i32(round_div(100 * (sdy * sx - c.tilt_y * sdx), sx * sy)),
    )
}

/// Pixel offset from the screen center of a world offset: the forward transform,
/// rounded to whole pixels.
pub open spec fn world_to_pixel_offset(c: Calibration, wx: int, wy: int) -> (int, int) {
    (
        round_div(c.px_per_unit_x * wx, 100),
        round_div(c.tilt_y * wx + c.px_per_unit_y * wy, 100),
    )
}

fn round_div_exec(n: i128, d: i128) -> (r: i128)
    requires
        d > 0,
        -0x1_0000_0000_0000_0000_0000_0000 <= n <= 0x1_0000_0000_0000_0000_0000_0000,
        d <= 0x1_0000_0000_0000_0000,
    ensures
        r == round_div(n as int, d as int),
{
    if n >= 0 {
        (2 * n + d) / (2 * d)
    } else {
        -((2 * (-n) + d) / (2 * d))
    }
}

fn saturate(v: i128) -> (r: i32)
    ensures
        r == saturate_i32(v as int),
{
    if v < i32::MIN as i128 {
        i32::MIN
    } else if v > i32::MAX as i128 {
        i32::MAX
    } else {
        v as i32
    }
}

/// World-coordinate offset of a pixel from the screen center under `cal`.
pub fn pixel_to_world_offset(cal: &Calibration, pixel_x: u32, pixel_y: u32) -> (r: (i32, i32))
    requires
        cal.px_per_unit_x > 0,
        cal.px_per_unit_y > 0,
    ensures
        r == pixel_offset_spec(*cal, pixel_x as int, pixel_y as int),
{
    let sdx = pixel_x as i128 - cal.center_x as i128;
    let sdy = pixel_y as i128 - cal.center_y as i128;
    let sx = cal.px_per_unit_x as i128;
    let sy = cal.px_per_unit_y as i128;
    let t = cal.tilt_y as i128;
    proof {
        let m: int = 0x1_0000_0000;
        assert(-m <= sdx <= m && -m <= sdy <= m);
        assert(-m * m <= sdy * sx <= m * m) by (nonlinear_arith)
            requires -m <= sdy <= m, 0 < sx < m;
        assert(-m * m <= t * sdx <= m * m) by (nonlinear_arith)
            requires -m <= sdx <= m, -m <= t <= m;
        assert(0 < sx * sy <= m * m) by (nonlinear_arith)
            requires 0 < sx < m, 0 < sy < m;
    }
    let dx = round_div_exec(100 * sdx, sx);
    let dy = round_div_exec(100 * (sdy * sx - t * sdx), sx * sy);
    (saturate(dx), saturate(dy))
}

/// World-coordinate offset of a pixel from the screen center, under the
/// reference calibration.
pub fn pixel_to_game_offset(pixel_x: u32, pixel_y: u32) -> (r: (i32, i32))
    ensures
        r == pixel_offset_spec(default_calibration_spec(), pixel_x as int, pixel_y as int),
{
    let cal = default_calibration();
    pixel_to_world_offset(&cal, pixel_x, pixel_y)
}

/// `(x + dx, y + dy)` clamped into the world.
pub open spec fn offset_position_spec(x: int, y: int, dx: int, dy: int) -> (u32, u32) {
    (clamp_coord(x + dx), clamp_coord(y + dy))
}

/// A world position moved by an offset, clamped into the world.
pub fn offset_position(x: u32, y: u32, dx: i32, dy: i32) -> (r: (u32, u32))
    ensures
        r == offset_position_spec(x as int, y as int, dx as int, dy as int),
{
    let nx = x as i64 + dx as i64;
    let ny = y as i64 + dy as i64;
    let cx: u32 = if nx < 0 { 0 } else if nx > 1023 { 1023 } else { nx as u32 };
    let cy: u32 = if ny < 0 { 0 } else if ny > 1023 { 1023 } else { ny as u32 };
    (cx, cy)
}

proof fn lemma_round_div_bounds(n: int, d: int)
    requires
        d > 0,
    ensures
        2 * d * round_div(n, d) - d <= 2 * n <= 2 * d * round_div(n, d) + d,
{
    if n >= 0 {
        let m = 2 * n + d;
        let q = m / (2 * d);
        assert(2 * d * q <= m < 2 * d * q + 2 * d) by (nonlinear_arith)
            requires d > 0, q == m / (2 * d);
    } else {
        let m = 2 * (-n) + d;
        let q = m / (2 * d);
        assert(2 * d * q <= m < 2 * d * q + 2 * d) by (nonlinear_arith)
            requires d > 0, q == m / (2 * d);
        assert(round_div(n, d) == -q);
        assert(2 * d * (-q) == -(2 * d * q)) by (nonlinear_arith);
    }
}

proof fn lemma_round_div_unique(n: int, d: int, w: int)
    requires
        d > 0,
        2 * d * w - d < 2 * n < 2 * d * w + d,
    ensures
        round_div(n, d) == w,
{
    lemma_round_div_bounds(n, d);
    let r = round_div(n, d);
    assert(r == w) by (nonlinear_arith)
        requires
            d > 0,
            2 * d * w - d < 2 * n < 2 * d * w + d,
            2 * d * r - d <= 2 * n <= 2 * d * r + d,
    ;
}

/// Under the reference calibration, projecting a world offset to pixels
/// (rounded to whole pixels) and converting back recovers the world offset:
/// the transform is inverted to within one unit, here exactly.
pub proof fn lemma_pixel_offset_inverts_forward(wx: int, wy: int)
    requires
        760 + world_to_pixel_offset(default_calibration_spec(), wx, wy).0 >= 0,
        400 + world_to_pixel_offset(default_calibration_spec(), wx, wy).1 >= 0,
        -0x1000_0000 <= wx <= 0x1000_0000,
        -0x1000_0000 <= wy <= 0x1000_0000,
    ensures
        ({
            let (px, py) = world_to_pixel_offset(default_calibration_spec(), wx, wy);
            let r = pixel_offset_spec(default_calibration_spec(), 760 + px, 400 + py);
            r.0 == wx && r.1 == wy
        }),
{
    let (px, py) = world_to_pixel_offset(default_calibration_spec(), wx, wy);
    // Rounding to pixels moves each axis by at most half a pixel.
    lemma_round_div_bounds(4940 * wx, 100);
    lemma_round_div_bounds(-150 * wx + 2832 * wy, 100);
    assert(-50 <= 100 * px - 4940 * wx <= 50);
    assert(-50 <= 100 * py - (-150 * wx + 2832 * wy) <= 50);
    lemma_round_div_unique(100 * px, 4940, wx);
    let n = 100 * (py * 4940 - (-150) * px);
    lemma_round_div_unique(n, 4940int * 2832int, wy);
}

} // verus!
