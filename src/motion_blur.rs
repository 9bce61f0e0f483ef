//! Motion estimation by central differences of the trajectory, and the
//! radial (zoom) and directional (pan) blurs it drives.
use vstd::prelude::*;
use crate::effects::{MAX_CANVAS_COORD, ContentLayout, MAX_SCALE_FACTOR, to_canvas, to_canvas_spec};
use crate::events::{CursorEvent, events_ok};
use crate::fixed::{SUBUNITS, UNIT, floor_div, isqrt, sqrt_floor};
use crate::frame::{Frame, Image, Rgba, MAX_DIM, lemma_coords_of_index};
use crate::zoom::{ZoomConfig, calculate_zoom, clamp_spec, time_ok, trajectory};

verus! {

/// Half the step of the central difference, in microseconds (1/120 s).
pub const MOTION_DT: i64 = 8_333;

/// Zoom velocity beyond which the view counts as zooming (0.05/s, millionths).
pub const ZOOM_THRESHOLD: i64 = 50_000;

/// Pan speed beyond which the view counts as panning (50 px/s, thousandths).
pub const PAN_THRESHOLD: i64 = 50_000;

/// Largest blur strength, in thousandths of a pixel.
pub const MAX_BLUR_STRENGTH: i64 = 10_000_000;

/// Largest number of blur samples.
pub const MAX_BLUR_SAMPLES: u32 = 1024;

/// Largest velocity magnitude handled, per second.
pub const MAX_VELOCITY: i64 = 1_000_000_000_000_000_000;

/// What the view is doing.
#[derive(Clone, Copy, Debug, PartialEq, Eq, Structural)]
pub enum MotionPhase {
    Idle,
    ZoomIn,
    Hold,
    ZoomOut,
    Pan,
}

/// Motion at one instant: zoom (millionths), zoom velocity (millionths per
/// second), focus in canvas space and pan velocity (thousandths of a pixel,
/// per second for the velocity).
#[derive(Clone, Copy, Debug)]
pub struct MotionState {
    pub zoom: i64,
    pub zoom_velocity: i64,
    pub cursor_x: i64,
    pub cursor_y: i64,
    pub pan_velocity_x: i64,
    pub pan_velocity_y: i64,
    pub phase: MotionPhase,
}

/// Blur settings; strengths in thousandths of a pixel, the velocity
/// threshold in millionths.
#[derive(Clone, Copy, Debug)]
pub struct MotionBlurConfig {
    pub enabled: bool,
    pub zoom_blur_strength: i64,
    pub zoom_blur_samples: u32,
    pub pan_blur_strength: i64,
    pub pan_blur_samples: u32,
    pub velocity_threshold: i64,
}

impl MotionBlurConfig {
    pub open spec fn wf(&self) -> bool {
        &&& 0 <= self.zoom_blur_strength <= MAX_BLUR_STRENGTH
        &&& 0 <= self.pan_blur_strength <= MAX_BLUR_STRENGTH
        &&& 2 <= self.zoom_blur_samples <= MAX_BLUR_SAMPLES
        &&& 2 <= self.pan_blur_samples <= MAX_BLUR_SAMPLES
        &&& 0 <= self.velocity_threshold <= MAX_VELOCITY
    }
}

impl Default for MotionBlurConfig {
    fn default() -> (r: Self)
        ensures
            r.enabled,
            r.zoom_blur_strength == 90_000,
            r.zoom_blur_samples == 16,
            r.pan_blur_strength == 60_000,
            r.pan_blur_samples == 12,
            r.velocity_threshold == 50_000,
            r.wf(),
    {
        MotionBlurConfig {
            enabled: true,
            zoom_blur_strength: 90_000,
            zoom_blur_samples: 16,
            pan_blur_strength: 60_000,
            pan_blur_samples: 12,
            velocity_threshold: 50_000,
        }
    }
}

pub open spec fn motion_phase_spec(zoom: int, zv: int, vx: int, vy: int) -> MotionPhase {
    if zoom < 1_010_000 {
        MotionPhase::Idle
    } else if zv > ZOOM_THRESHOLD {
        MotionPhase::ZoomIn
    } else if zv < -ZOOM_THRESHOLD {
        MotionPhase::ZoomOut
    } else if vx * vx + vy * vy > PAN_THRESHOLD * PAN_THRESHOLD {
        MotionPhase::Pan
    } else {
        MotionPhase::Hold
    }
}

/// Classify the motion from zoom, zoom velocity and pan velocity.
pub fn determine_motion_phase(zoom: i64, zoom_velocity: i64, pan_vx: i64, pan_vy: i64) -> (r: MotionPhase)
    ensures
        r == motion_phase_spec(zoom as int, zoom_velocity as int, pan_vx as int, pan_vy as int),
{
    if zoom < 1_010_000 {
        return MotionPhase::Idle;
    }
    if zoom_velocity > ZOOM_THRESHOLD {
        return MotionPhase::ZoomIn;
    }
    if zoom_velocity < -ZOOM_THRESHOLD {
        return MotionPhase::ZoomOut;
    }
    let vx: u128 = if pan_vx < 0 {
        (-(pan_vx as i128)) as u128
    } else {
        pan_vx as u128
    };
    let vy: u128 = if pan_vy < 0 {
        (-(pan_vy as i128)) as u128
    } else {
        pan_vy as u128
    };
    proof {
        assert(vx * vx <= 0x8000_0000_0000_0000 * 0x8000_0000_0000_0000) by (nonlinear_arith)
            requires
                0 <= vx <= 0x8000_0000_0000_0000,
        ;
        assert(vy * vy <= 0x8000_0000_0000_0000 * 0x8000_0000_0000_0000) by (nonlinear_arith)
            requires
                0 <= vy <= 0x8000_0000_0000_0000,
        ;
        assert(vx * vx == pan_vx * pan_vx) by (nonlinear_arith)
            requires
                vx == pan_vx || vx == -pan_vx,
        ;
        assert(vy * vy == pan_vy * pan_vy) by (nonlinear_arith)
            requires
                vy == pan_vy || vy == -pan_vy,
        ;
    }
    if vx * vx + vy * vy > (PAN_THRESHOLD as u128) * (PAN_THRESHOLD as u128) {
        return MotionPhase::Pan;
    }
    MotionPhase::Hold
}

/// Rate of change per second of a quantity that moved by `delta` over two
/// half-steps.
pub open spec fn rate_spec(delta: int) -> int {
    delta * 1_000_000 / (2 * MOTION_DT) as int
}

fn rate(delta: i64) -> (r: i64)
    requires
        -4_000_000_000_000_000 <= delta <= 4_000_000_000_000_000,
    ensures
        r == rate_spec(delta as int),
        -MAX_VELOCITY <= r <= MAX_VELOCITY,
{
    proof {
        vstd::arithmetic::div_mod::lemma_div_is_ordered(delta * 1_000_000, 4_000_000_000_000_000int * 1_000_000, 16_666);
        vstd::arithmetic::div_mod::lemma_div_is_ordered(-4_000_000_000_000_000int * 1_000_000, delta * 1_000_000, 16_666);
    }
    floor_div((delta as i128) * 1_000_000, 2 * MOTION_DT as i128) as i64
}

/// The motion state at `t`: the trajectory sampled half a step before and
/// after, its focus mapped to canvas space, and central differences.
pub open spec fn motion_state_spec(
    events: Seq<CursorEvent>,
    c: ZoomConfig,
    layout: ContentLayout,
    offset: (i32, i32),
    sf: int,
    t: int,
) -> MotionState {
    let prev = trajectory(events, c, t - MOTION_DT);
    let curr = trajectory(events, c, t);
    let next = trajectory(events, c, t + MOTION_DT);
    let cx = |v: int| to_canvas_spec(v, sf, offset.0 as int, layout.offset_x as int, layout.scale_num as int, layout.scale_den as int);
    let cy = |v: int| to_canvas_spec(v, sf, offset.1 as int, layout.offset_y as int, layout.scale_num as int, layout.scale_den as int);
    let zv = rate_spec(next.0 - prev.0);
    let vx = rate_spec(cx(next.1) - cx(prev.1));
    let vy = rate_spec(cy(next.2) - cy(prev.2));
    MotionState {
        zoom: curr.0 as i64,
        zoom_velocity: zv as i64,
        cursor_x: cx(curr.1) as i64,
        cursor_y: cy(curr.2) as i64,
        pan_velocity_x: vx as i64,
        pan_velocity_y: vy as i64,
        phase: motion_phase_spec(curr.0, zv, vx, vy),
    }
}

pub proof fn lemma_to_canvas_bounds(v: int, sf: int, off: int, lo: int, num: int, den: int)
    requires
        -1_000_000_000 <= v <= 1_000_000_000,
        SUBUNITS <= sf <= MAX_SCALE_FACTOR,
        -0x8000_0000 <= off < 0x8000_0000,
        0 <= lo <= 1920,
        0 <= num <= den,
        0 < den,
    ensures
        -1_000_000_000_000_000 <= to_canvas_spec(v, sf, off, lo, num, den) <= 1_000_000_000_000_000,
{
    assert(-100_000_000_000_000 <= v * sf <= 100_000_000_000_000) by (nonlinear_arith)
        requires
            -1_000_000_000 <= v <= 1_000_000_000,
            0 <= sf <= 100_000,
    ;
    assert(-300_000_000_000_000 <= off * sf <= 300_000_000_000_000) by (nonlinear_arith)
        requires
            -3_000_000_000 <= off <= 3_000_000_000,
            0 <= sf <= 100_000,
    ;
    vstd::arithmetic::div_mod::lemma_div_is_ordered(v * sf, 100_000_000_000_000, 1000);
    vstd::arithmetic::div_mod::lemma_div_is_ordered(-100_000_000_000_000, v * sf, 1000);
    crate::effects::lemma_scaled_bounds(v * sf / 1000 - off * sf, num, den);
}

/// Motion at `t`, for the motion blur.
pub fn calculate_motion_state(
    timestamp: i64,
    cursor_events: &Vec<CursorEvent>,
    zoom_config: &ZoomConfig,
    layout: &ContentLayout,
    window_offset: (i32, i32),
    scale_factor: i64,
) -> (r: MotionState)
    requires
        events_ok(cursor_events@),
        zoom_config.wf(),
        layout.wf(),
        SUBUNITS <= scale_factor <= MAX_SCALE_FACTOR,
        time_ok(timestamp - MOTION_DT),
        time_ok(timestamp + MOTION_DT),
    ensures
        r == motion_state_spec(
            cursor_events@,
            *zoom_config,
            *layout,
            window_offset,
            scale_factor as int,
            timestamp as int,
        ),
        motion_ok(r),
{
    let prev = calculate_zoom(timestamp - MOTION_DT, cursor_events, zoom_config);
    let curr = calculate_zoom(timestamp, cursor_events, zoom_config);
    let next = calculate_zoom(timestamp + MOTION_DT, cursor_events, zoom_config);
    let zoom_velocity = rate(next.0 - prev.0);
    let (px, py) = to_canvas(prev.1, prev.2, scale_factor, window_offset, layout);
    let (cx, cy) = to_canvas(curr.1, curr.2, scale_factor, window_offset, layout);
    let (nx, ny) = to_canvas(next.1, next.2, scale_factor, window_offset, layout);
    proof {
        let num = layout.scale_num as int;
        let den = layout.scale_den as int;
        lemma_to_canvas_bounds(prev.1 as int, scale_factor as int, window_offset.0 as int, layout.offset_x as int, num, den);
        lemma_to_canvas_bounds(next.1 as int, scale_factor as int, window_offset.0 as int, layout.offset_x as int, num, den);
        lemma_to_canvas_bounds(prev.2 as int, scale_factor as int, window_offset.1 as int, layout.offset_y as int, num, den);
        lemma_to_canvas_bounds(next.2 as int, scale_factor as int, window_offset.1 as int, layout.offset_y as int, num, den);
        lemma_to_canvas_bounds(curr.1 as int, scale_factor as int, window_offset.0 as int, layout.offset_x as int, num, den);
        lemma_to_canvas_bounds(curr.2 as int, scale_factor as int, window_offset.1 as int, layout.offset_y as int, num, den);
    }
    let vx = rate(nx - px);
    let vy = rate(ny - py);
    let phase = determine_motion_phase(curr.0, zoom_velocity, vx, vy);
    MotionState {
        zoom: curr.0,
        zoom_velocity,
        cursor_x: cx,
        cursor_y: cy,
        pan_velocity_x: vx,
        pan_velocity_y: vy,
        phase,
    }
}

/// Position of sample `i` of `n` along the blur line, as a fraction.
pub open spec fn sample_t(i: int, n: int) -> int {
    i * UNIT / (n - 1)
}

/// Weight of sample `i` of `n`: `1 − 0.7·t`.
pub open spec fn sample_weight(i: int, n: int) -> int {
    UNIT - 7 * sample_t(i, n) / 10
}

/// One coordinate (thousandths of a pixel) of sample `i`: pixel `p` moved by
/// `dir · t · extent`, clamped to the image.
pub open spec fn sample_coord(p: int, dir: int, extent: int, i: int, n: int, size: int) -> int {
    clamp_spec(
        p * SUBUNITS + dir * (sample_t(i, n) * extent / UNIT as int) / UNIT as int,
        0,
        (size - 1) * SUBUNITS,
    )
}

pub open spec fn lerp_channel(a: int, b: int, f: int) -> int {
    (a * (SUBUNITS - f) + b * f) / SUBUNITS as int
}

pub open spec fn lerp_rgba(p: Rgba, q: Rgba, f: int) -> Rgba {
    Rgba {
        r: lerp_channel(p.r as int, q.r as int, f) as u8,
        g: lerp_channel(p.g as int, q.g as int, f) as u8,
        b: lerp_channel(p.b as int, q.b as int, f) as u8,
        a: lerp_channel(p.a as int, q.a as int, f) as u8,
    }
}

/// Bilinear sample of `img` at `(sx, sy)` (thousandths of a pixel).
pub open spec fn bilinear_spec(img: Image, sx: int, sy: int) -> Rgba {
    let x0 = sx / SUBUNITS as int;
    let y0 = sy / SUBUNITS as int;
    let x1 = if x0 + 1 < img.width {
        x0 + 1
    } else {
        img.width - 1
    };
    let y1 = if y0 + 1 < img.height {
        y0 + 1
    } else {
        img.height - 1
    };
    let fx = sx % SUBUNITS as int;
    let fy = sy % SUBUNITS as int;
    lerp_rgba(
        lerp_rgba(img.at(x0, y0), img.at(x1, y0), fx),
        lerp_rgba(img.at(x0, y1), img.at(x1, y1), fx),
        fy,
    )
}

/// Weighted sums `(r, g, b, a, weight)` of the first `k` samples.
pub open spec fn blur_sums(img: Image, x: int, y: int, dx: int, dy: int, extent: int, n: int, k: int) -> (
    int,
    int,
    int,
    int,
    int,
)
    decreases k,
{
    if k <= 0 {
        (0, 0, 0, 0, 0)
    } else {
        let s = blur_sums(img, x, y, dx, dy, extent, n, k - 1);
        let p = bilinear_spec(
            img,
            sample_coord(x, dx, extent, k - 1, n, img.width as int),
            sample_coord(y, dy, extent, k - 1, n, img.height as int),
        );
        let w = sample_weight(k - 1, n);
        (s.0 + w * p.r, s.1 + w * p.g, s.2 + w * p.b, s.3 + w * p.a, s.4 + w)
    }
}

/// Pixel `(x, y)` blurred along the direction `(dx, dy)` (millionths) over
/// `extent` (thousandths of a pixel) with `n` samples.
pub open spec fn blur_pixel_spec(img: Image, x: int, y: int, dx: int, dy: int, extent: int, n: int) -> Rgba {
    let s = blur_sums(img, x, y, dx, dy, extent, n, n);
    Rgba { r: (s.0 / s.4) as u8, g: (s.1 / s.4) as u8, b: (s.2 / s.4) as u8, a: (s.3 / s.4) as u8 }
}

fn lerp_channel_exec(a: u8, b: u8, f: i64) -> (r: u8)
    requires
        0 <= f < SUBUNITS,
    ensures
        r == lerp_channel(a as int, b as int, f as int),
{
    proof {
        assert(0 <= a * (SUBUNITS - f) + b * f <= 255 * SUBUNITS) by (nonlinear_arith)
            requires
                0 <= a <= 255,
                0 <= b <= 255,
                0 <= f <= SUBUNITS,
        ;
        vstd::arithmetic::div_mod::lemma_div_is_ordered(a * (SUBUNITS - f) + b * f, 255 * SUBUNITS, 1000);
    }
    (((a as i64) * (SUBUNITS - f) + (b as i64) * f) / SUBUNITS) as u8
}

fn lerp_px(p: Rgba, q: Rgba, f: i64) -> (r: Rgba)
    requires
        0 <= f < SUBUNITS,
    ensures
        r == lerp_rgba(p, q, f as int),
{
    Rgba {
        r: lerp_channel_exec(p.r, q.r, f),
        g: lerp_channel_exec(p.g, q.g, f),
        b: lerp_channel_exec(p.b, q.b, f),
        a: lerp_channel_exec(p.a, q.a, f),
    }
}

/// Bilinear sample at `(sx, sy)`, in thousandths of a pixel.
pub fn bilinear_sample(img: &Frame, sx: i64, sy: i64) -> (r: Rgba)
    requires
        img.wf(),
        0 < img.width,
        0 < img.height,
        0 <= sx <= (img.width - 1) * SUBUNITS,
        0 <= sy <= (img.height - 1) * SUBUNITS,
    ensures
        r == bilinear_spec(img@, sx as int, sy as int),
{
    let x0 = (sx / SUBUNITS) as u32;
    let y0 = (sy / SUBUNITS) as u32;
    let x1 = if x0 + 1 < img.width {
        x0 + 1
    } else {
        img.width - 1
    };
    let y1 = if y0 + 1 < img.height {
        y0 + 1
    } else {
        img.height - 1
    };
    let fx = sx % SUBUNITS;
    let fy = sy % SUBUNITS;
    let top = lerp_px(img.get_pixel(x0, y0), img.get_pixel(x1, y0), fx);
    let bottom = lerp_px(img.get_pixel(x0, y1), img.get_pixel(x1, y1), fx);
    lerp_px(top, bottom, fy)
}

pub open spec fn blur_args_ok(img: Image, x: int, y: int, dx: int, dy: int, extent: int, n: int) -> bool {
    &&& img.width <= MAX_DIM && img.height <= MAX_DIM && img.pixels.len() == img.width * img.height
    &&& 0 <= x < img.width
    &&& 0 <= y < img.height
    &&& -UNIT <= dx <= UNIT
    &&& -UNIT <= dy <= UNIT
    &&& -MAX_BLUR_STRENGTH <= extent <= MAX_BLUR_STRENGTH
    &&& 2 <= n <= MAX_BLUR_SAMPLES
}

fn sample_coord_exec(p: u32, dir: i64, extent: i64, i: u32, n: u32, size: u32) -> (r: i64)
    requires
        p < size <= MAX_DIM,
        -UNIT <= dir <= UNIT,
        -MAX_BLUR_STRENGTH <= extent <= MAX_BLUR_STRENGTH,
        2 <= n <= MAX_BLUR_SAMPLES,
        i < n,
    ensures
        r == sample_coord(p as int, dir as int, extent as int, i as int, n as int, size as int),
        0 <= r <= (size - 1) * SUBUNITS,
{
    proof {
        assert(0 <= i * UNIT <= (n - 1) * UNIT) by (nonlinear_arith)
            requires
                0 <= i <= n - 1,
        ;
        vstd::arithmetic::div_mod::lemma_div_is_ordered(i * UNIT, (n - 1) * UNIT, (n - 1) as int);
        vstd::arithmetic::div_mod::lemma_div_by_multiple(UNIT as int, (n - 1) as int);
        assert((n - 1) * UNIT == UNIT * (n - 1)) by (nonlinear_arith);
        vstd::arithmetic::div_mod::lemma_div_pos_is_pos(i * UNIT, (n - 1) as int);
    }
    let t = (i as i64) * UNIT / ((n - 1) as i64);
    proof {
        assert(-MAX_BLUR_STRENGTH * UNIT <= t * extent <= MAX_BLUR_STRENGTH * UNIT) by (nonlinear_arith)
            requires
                0 <= t <= UNIT,
                -MAX_BLUR_STRENGTH <= extent <= MAX_BLUR_STRENGTH,
        ;
    }
    let off = floor_div((t as i128) * (extent as i128), UNIT as i128);
    proof {
        crate::effects::lemma_scaled_bounds(extent as int, t as int, UNIT as int);
        assert((t as i128) * (extent as i128) == extent * t) by (nonlinear_arith);
        assert(-MAX_BLUR_STRENGTH * UNIT <= dir * off <= MAX_BLUR_STRENGTH * UNIT) by (nonlinear_arith)
            requires
                -UNIT <= dir <= UNIT,
                -MAX_BLUR_STRENGTH <= off <= MAX_BLUR_STRENGTH,
        ;
    }
    let delta = floor_div((dir as i128) * off, UNIT as i128);
    proof {
        crate::effects::lemma_scaled_bounds(off as int, if dir < 0 { -dir as int } else { dir as int }, UNIT as int);
        assert(-MAX_BLUR_STRENGTH <= delta <= MAX_BLUR_STRENGTH) by {
            if dir < 0 {
                assert((dir as i128) * off == -(off * (-dir))) by (nonlinear_arith);
                vstd::arithmetic::div_mod::lemma_div_is_ordered(-(MAX_BLUR_STRENGTH * UNIT), (dir as i128) * off, UNIT as int);
                vstd::arithmetic::div_mod::lemma_div_is_ordered((dir as i128) * off, MAX_BLUR_STRENGTH * UNIT, UNIT as int);
                vstd::arithmetic::div_mod::lemma_div_multiples_vanish(MAX_BLUR_STRENGTH as int, UNIT as int);
                vstd::arithmetic::div_mod::lemma_div_multiples_vanish(-MAX_BLUR_STRENGTH as int, UNIT as int);
                assert(UNIT * MAX_BLUR_STRENGTH == MAX_BLUR_STRENGTH * UNIT);
                assert(UNIT * (-MAX_BLUR_STRENGTH) == -(MAX_BLUR_STRENGTH * UNIT));
            } else {
                vstd::arithmetic::div_mod::lemma_div_is_ordered(-(MAX_BLUR_STRENGTH * UNIT), (dir as i128) * off, UNIT as int);
                vstd::arithmetic::div_mod::lemma_div_is_ordered((dir as i128) * off, MAX_BLUR_STRENGTH * UNIT, UNIT as int);
                vstd::arithmetic::div_mod::lemma_div_multiples_vanish(MAX_BLUR_STRENGTH as int, UNIT as int);
                vstd::arithmetic::div_mod::lemma_div_multiples_vanish(-MAX_BLUR_STRENGTH as int, UNIT as int);
                assert(UNIT * MAX_BLUR_STRENGTH == MAX_BLUR_STRENGTH * UNIT);
                assert(UNIT * (-MAX_BLUR_STRENGTH) == -(MAX_BLUR_STRENGTH * UNIT));
            }
        }
    }
    let v = (p as i64) * SUBUNITS + delta as i64;
    let hi = ((size - 1) as i64) * SUBUNITS;
    if v < 0 {
        0
    } else if v > hi {
        hi
    } else {
        v
    }
}

/// Pixel `(x, y)` of `img` blurred along `(dx, dy)` over `extent`.
pub fn blur_pixel(img: &Frame, x: u32, y: u32, dx: i64, dy: i64, extent: i64, n: u32) -> (r: Rgba)
    requires
        blur_args_ok(img@, x as int, y as int, dx as int, dy as int, extent as int, n as int),
    ensures
        r == blur_pixel_spec(img@, x as int, y as int, dx as int, dy as int, extent as int, n as int),
{
    let mut sr: i64 = 0;
    let mut sg: i64 = 0;
    let mut sb: i64 = 0;
    let mut sa: i64 = 0;
    let mut sw: i64 = 0;
    let mut k: u32 = 0;
    while k < n
        invariant
            blur_args_ok(img@, x as int, y as int, dx as int, dy as int, extent as int, n as int),
            k <= n,
            (sr as int, sg as int, sb as int, sa as int, sw as int) == blur_sums(
                img@,
                x as int,
                y as int,
                dx as int,
                dy as int,
                extent as int,
                n as int,
                k as int,
            ),
            0 <= sr <= 255 * sw,
            0 <= sg <= 255 * sw,
            0 <= sb <= 255 * sw,
            0 <= sa <= 255 * sw,
            k * 300_000 <= sw <= k * UNIT,
        decreases n - k,
    {
        let px = sample_coord_exec(x, dx, extent, k, n, img.width);
        let py = sample_coord_exec(y, dy, extent, k, n, img.height);
        let p = bilinear_sample(img, px, py);
        proof {
            assert(0 <= k * UNIT <= (n - 1) * UNIT) by (nonlinear_arith)
                requires
                    0 <= k <= n - 1,
            ;
            vstd::arithmetic::div_mod::lemma_div_is_ordered(k * UNIT, (n - 1) * UNIT, (n - 1) as int);
            vstd::arithmetic::div_mod::lemma_div_by_multiple(UNIT as int, (n - 1) as int);
            assert((n - 1) * UNIT == UNIT * (n - 1)) by (nonlinear_arith);
            vstd::arithmetic::div_mod::lemma_div_pos_is_pos(k * UNIT, (n - 1) as int);
        }
        let t = (k as i64) * UNIT / ((n - 1) as i64);
        let w = UNIT - 7 * t / 10;
        proof {
            assert(0 <= w * p.r <= 255 * w) by (nonlinear_arith)
                requires
                    0 <= p.r <= 255,
                    0 <= w,
            ;
            assert(0 <= w * p.g <= 255 * w) by (nonlinear_arith)
                requires
                    0 <= p.g <= 255,
                    0 <= w,
            ;
            assert(0 <= w * p.b <= 255 * w) by (nonlinear_arith)
                requires
                    0 <= p.b <= 255,
                    0 <= w,
            ;
            assert(0 <= w * p.a <= 255 * w) by (nonlinear_arith)
                requires
                    0 <= p.a <= 255,
                    0 <= w,
            ;
            assert(k * UNIT <= 1024 * UNIT) by (nonlinear_arith)
                requires
                    k <= 1024,
            ;
        }
        sr = sr + w * (p.r as i64);
        sg = sg + w * (p.g as i64);
        sb = sb + w * (p.b as i64);
        sa = sa + w * (p.a as i64);
        sw = sw + w;
        k = k + 1;
    }
    proof {
        assert(sw > 0);
        crate::cursor::lemma_quotient_in_range(sr as int, sw as int, 0, 255);
        crate::cursor::lemma_quotient_in_range(sg as int, sw as int, 0, 255);
        crate::cursor::lemma_quotient_in_range(sb as int, sw as int, 0, 255);
        crate::cursor::lemma_quotient_in_range(sa as int, sw as int, 0, 255);
        assert(0 * (sw as int) == 0);
    }
    Rgba { r: (sr / sw) as u8, g: (sg / sw) as u8, b: (sb / sw) as u8, a: (sa / sw) as u8 }
}

/// Direction (millionths) and signed extent (thousandths of a pixel) of the
/// pan blur for velocity `(vx, vy)`, or `None` when too slow to blur.
pub open spec fn directional_params(vx: int, vy: int, c: MotionBlurConfig) -> Option<(int, int, int)> {
    let s = sqrt_floor(vx * vx + vy * vy);
    if s * 1000 < c.velocity_threshold * 500 {
        None
    } else {
        let blur = c.pan_blur_strength * (if s < 1_500_000 {
            s
        } else {
            1_500_000
        }) / 1_500_000;
        if blur < 500 {
            None
        } else {
            Some((vx * UNIT / s, vy * UNIT / s, -blur))
        }
    }
}

/// Direction and signed extent of the zoom blur at pixel `(x, y)` of a
/// `w × h` image, for focus `(cx, cy)` and zoom velocity `zv`, or `None`
/// where the blur would stay under half a pixel.
pub open spec fn radial_params(
    w: int,
    h: int,
    x: int,
    y: int,
    cx: int,
    cy: int,
    zv: int,
    c: MotionBlurConfig,
) -> Option<(int, int, int)> {
    let half = (if zv < 0 {
        -zv
    } else {
        zv
    }) / 2;
    let amount = c.zoom_blur_strength * (if half < UNIT {
        half
    } else {
        UNIT as int
    }) / UNIT as int;
    let max_dist = (if w > h {
        w
    } else {
        h
    }) * SUBUNITS / 2;
    let dx = x * SUBUNITS - cx;
    let dy = y * SUBUNITS - cy;
    let d0 = sqrt_floor(dx * dx + dy * dy);
    let d = if d0 > SUBUNITS {
        d0
    } else {
        SUBUNITS as int
    };
    let q = d * UNIT / max_dist;
    let factor = if q < UNIT {
        q
    } else {
        UNIT as int
    };
    let pb = amount * factor / UNIT as int;
    if pb < 500 {
        None
    } else {
        Some((dx * UNIT / d, dy * UNIT / d, if zv > 0 {
            pb
        } else {
            -pb
        }))
    }
}

/// Pixel `p` of `img` after blurring with `params` (none: unchanged).
pub open spec fn blurred_pixel(img: Image, p: int, params: Option<(int, int, int)>, n: int) -> Rgba {
    match params {
        None => img.pixels[p],
        Some(t) => blur_pixel_spec(img, p % img.width as int, p / img.width as int, t.0, t.1, t.2, n),
    }
}

/// A coordinate is no longer than the floor of the vector's length.
pub proof fn lemma_component_le_length(v: int, other: int, r: int)
    requires
        crate::fixed::is_floor_sqrt(v * v + other * other, r),
    ensures
        -r <= v <= r,
{
    let n = v * v + other * other;
    let m = if v < 0 {
        -v
    } else {
        v
    };
    assert(m * m <= n) by (nonlinear_arith)
        requires
            n == v * v + other * other,
            m == v || m == -v,
    ;
    assert(m <= r) by (nonlinear_arith)
        requires
            m * m <= n < (r + 1) * (r + 1),
            m >= 0,
            r >= 0,
    ;
}

pub proof fn lemma_unit_direction(v: int, d: int)
    requires
        d >= 1,
        -d <= v <= d,
    ensures
        -UNIT <= v * UNIT / d <= UNIT,
{
    assert(-(UNIT * d) <= v * UNIT <= UNIT * d) by (nonlinear_arith)
        requires
            -d <= v <= d,
    ;
    vstd::arithmetic::div_mod::lemma_div_is_ordered(v * UNIT, UNIT * d, d);
    vstd::arithmetic::div_mod::lemma_div_is_ordered(-(UNIT * d), v * UNIT, d);
    vstd::arithmetic::div_mod::lemma_div_multiples_vanish(UNIT as int, d);
    vstd::arithmetic::div_mod::lemma_div_multiples_vanish(-UNIT as int, d);
    assert(d * UNIT == UNIT * d && d * (-UNIT) == -(UNIT * d)) by (nonlinear_arith);
}

fn unit_component(v: i128, d: i128) -> (r: i64)
    requires
        1 <= d <= 0x100_0000_0000_0000_0000,
        -d <= v <= d,
    ensures
        r == v * UNIT / (d as int),
        -UNIT <= r <= UNIT,
{
    proof {
        lemma_unit_direction(v as int, d as int);
        assert(-0x100_0000_0000_0000_0000 * UNIT <= v * UNIT <= 0x100_0000_0000_0000_0000 * UNIT) by (nonlinear_arith)
            requires
                -0x100_0000_0000_0000_0000 <= v <= 0x100_0000_0000_0000_0000,
        ;
    }
    floor_div(v * (UNIT as i128), d) as i64
}

/// Directional (pan) blur: every pixel averaged with samples trailing behind
/// the motion.
pub fn apply_directional_blur(img: &Frame, velocity_x: i64, velocity_y: i64, config: &MotionBlurConfig) -> (r: Frame)
    requires
        img.wf(),
        config.wf(),
        -MAX_VELOCITY <= velocity_x <= MAX_VELOCITY,
        -MAX_VELOCITY <= velocity_y <= MAX_VELOCITY,
    ensures
        r.wf(),
        r.width == img.width,
        r.height == img.height,
        forall|p: int|
            0 <= p < r.pixels.len() ==> #[trigger] r.pixels@[p] == blurred_pixel(
                img@,
                p,
                directional_params(velocity_x as int, velocity_y as int, *config),
                config.pan_blur_samples as int,
            ),
{
    let vx = velocity_x as i128;
    let vy = velocity_y as i128;
    proof {
        assert(0 <= vx * vx <= 1_000_000_000_000_000_000 * 1_000_000_000_000_000_000) by (nonlinear_arith)
            requires
                -1_000_000_000_000_000_000 <= vx <= 1_000_000_000_000_000_000,
        ;
        assert(0 <= vy * vy <= 1_000_000_000_000_000_000 * 1_000_000_000_000_000_000) by (nonlinear_arith)
            requires
                -1_000_000_000_000_000_000 <= vy <= 1_000_000_000_000_000_000,
        ;
    }
    let sum = (vx * vx + vy * vy) as u128;
    let root = isqrt(sum);
    proof {
        assert(root <= 2_000_000_000_000_000_000) by (nonlinear_arith)
            requires
                root * root <= sum,
                sum <= 2 * (1_000_000_000_000_000_000int * 1_000_000_000_000_000_000),
                root >= 0,
        ;
        lemma_component_le_length(vx as int, vy as int, root as int);
        lemma_component_le_length(vy as int, vx as int, root as int);
        assert(vy * vy + vx * vx == vx * vx + vy * vy);
    }
    let speed = root as i128;
    if speed * 1000 < (config.velocity_threshold as i128) * 500 {
        return img.duplicate();
    }
    let capped: i64 = if speed < 1_500_000 {
        speed as i64
    } else {
        1_500_000
    };
    proof {
        assert(0 <= config.pan_blur_strength * capped <= MAX_BLUR_STRENGTH * 1_500_000) by (nonlinear_arith)
            requires
                0 <= config.pan_blur_strength <= MAX_BLUR_STRENGTH,
                0 <= capped <= 1_500_000,
        ;
        vstd::arithmetic::div_mod::lemma_div_is_ordered(
            config.pan_blur_strength * capped,
            MAX_BLUR_STRENGTH * 1_500_000,
            1_500_000,
        );
        vstd::arithmetic::div_mod::lemma_div_by_multiple(MAX_BLUR_STRENGTH as int, 1_500_000);
    }
    let blur = config.pan_blur_strength * capped / 1_500_000;
    if blur < 500 {
        return img.duplicate();
    }
    proof {
        if speed == 0 {
            assert(config.pan_blur_strength * capped == 0) by (nonlinear_arith)
                requires
                    capped == 0,
            ;
        }
    }
    let dir_x = unit_component(vx, speed);
    let dir_y = unit_component(vy, speed);
    let ghost params = directional_params(velocity_x as int, velocity_y as int, *config);
    assert(params == Some((dir_x as int, dir_y as int, -blur as int)));
    let n = img.pixels.len();
    let w = img.width;
    let h = img.height;
    let mut out: Vec<Rgba> = Vec::new();
    let mut p: usize = 0;
    while p < n
        invariant
            img.wf(),
            config.wf(),
            n == img.pixels.len(),
            w == img.width,
            h == img.height,
            p <= n,
            out.len() == p,
            -UNIT <= dir_x <= UNIT,
            -UNIT <= dir_y <= UNIT,
            500 <= blur <= MAX_BLUR_STRENGTH,
            params == Some((dir_x as int, dir_y as int, -blur as int)),
            forall|q: int|
                0 <= q < p ==> #[trigger] out@[q] == blurred_pixel(
                    img@,
                    q,
                    params,
                    config.pan_blur_samples as int,
                ),
        decreases n - p,
    {
        proof {
            if w == 0 {
                assert(w * h == 0);
            }
            lemma_coords_of_index(p as int, w as int, h as int);
        }
        let x = (p % (w as usize)) as u32;
        let y = (p / (w as usize)) as u32;
        let v = blur_pixel(img, x, y, dir_x, dir_y, -blur, config.pan_blur_samples);
        out.push(v);
        p = p + 1;
    }
    Frame { width: w, height: h, pixels: out }
}

fn radial_blur_pixel(
    img: &Frame,
    x: u32,
    y: u32,
    center_x: i64,
    center_y: i64,
    zoom_velocity: i64,
    config: &MotionBlurConfig,
    amount: i64,
    max_dist: i64,
) -> (r: Rgba)
    requires
        img.wf(),
        config.wf(),
        x < img.width,
        y < img.height,
        -MAX_CANVAS_COORD <= center_x <= MAX_CANVAS_COORD,
        -MAX_CANVAS_COORD <= center_y <= MAX_CANVAS_COORD,
        0 <= amount <= MAX_BLUR_STRENGTH,
        amount == config.zoom_blur_strength * (if (if zoom_velocity < 0 {
            -zoom_velocity as int
        } else {
            zoom_velocity as int
        }) / 2 < UNIT {
            (if zoom_velocity < 0 {
                -zoom_velocity as int
            } else {
                zoom_velocity as int
            }) / 2
        } else {
            UNIT as int
        }) / UNIT as int,
        max_dist == (if img.width > img.height {
            img.width
        } else {
            img.height
        }) * SUBUNITS / 2,
    ensures
        r == (match radial_params(
            img.width as int,
            img.height as int,
            x as int,
            y as int,
            center_x as int,
            center_y as int,
            zoom_velocity as int,
            *config,
        ) {
            None => img@.at(x as int, y as int),
            Some(t) => blur_pixel_spec(img@, x as int, y as int, t.0, t.1, t.2, config.zoom_blur_samples as int),
        }),
{
    let dx = (x as i64) * SUBUNITS - center_x;
    let dy = (y as i64) * SUBUNITS - center_y;
    proof {
        assert(0 <= dx * dx <= 2_000_000_000_000_000int * 2_000_000_000_000_000) by (nonlinear_arith)
            requires
                -2_000_000_000_000_000 <= dx <= 2_000_000_000_000_000,
        ;
        assert(0 <= dy * dy <= 2_000_000_000_000_000int * 2_000_000_000_000_000) by (nonlinear_arith)
            requires
                -2_000_000_000_000_000 <= dy <= 2_000_000_000_000_000,
        ;
    }
    let d0 = isqrt(((dx as i128) * (dx as i128) + (dy as i128) * (dy as i128)) as u128);
    proof {
        assert(d0 <= 4_000_000_000_000_000) by (nonlinear_arith)
            requires
                d0 * d0 <= 2 * (2_000_000_000_000_000int * 2_000_000_000_000_000),
                d0 >= 0,
        ;
        lemma_component_le_length(dx as int, dy as int, d0 as int);
        lemma_component_le_length(dy as int, dx as int, d0 as int);
        assert(dy * dy + dx * dx == dx * dx + dy * dy);
    }
    let d: i128 = if d0 as i128 > SUBUNITS as i128 {
        d0 as i128
    } else {
        SUBUNITS as i128
    };
    let q = d * (UNIT as i128) / (max_dist as i128);
    let factor: i64 = if q < UNIT as i128 {
        q as i64
    } else {
        UNIT
    };
    proof {
        vstd::arithmetic::div_mod::lemma_div_pos_is_pos(d * UNIT, max_dist as int);
        assert(0 <= amount * factor <= MAX_BLUR_STRENGTH * UNIT) by (nonlinear_arith)
            requires
                0 <= amount <= MAX_BLUR_STRENGTH,
                0 <= factor <= UNIT,
        ;
        vstd::arithmetic::div_mod::lemma_div_is_ordered(amount * factor, MAX_BLUR_STRENGTH * UNIT, UNIT as int);
        vstd::arithmetic::div_mod::lemma_div_by_multiple(MAX_BLUR_STRENGTH as int, UNIT as int);
    }
    let pb = amount * factor / UNIT;
    if pb < 500 {
        img.get_pixel(x, y)
    } else {
        let dir_x = unit_component(dx as i128, d);
        let dir_y = unit_component(dy as i128, d);
        let extent = if zoom_velocity > 0 {
            pb
        } else {
            -pb
        };
        blur_pixel(img, x, y, dir_x, dir_y, extent, config.zoom_blur_samples)
    }
}

/// Radial (zoom) blur about `(center_x, center_y)` (canvas thousandths of a
/// pixel), stronger away from the centre and with the zoom velocity.
pub fn apply_radial_blur(
    img: &Frame,
    center_x: i64,
    center_y: i64,
    zoom_velocity: i64,
    config: &MotionBlurConfig,
) -> (r: Frame)
    requires
        img.wf(),
        config.wf(),
        -MAX_CANVAS_COORD <= center_x <= MAX_CANVAS_COORD,
        -MAX_CANVAS_COORD <= center_y <= MAX_CANVAS_COORD,
        -MAX_VELOCITY <= zoom_velocity <= MAX_VELOCITY,
    ensures
        r.wf(),
        r.width == img.width,
        r.height == img.height,
        -config.velocity_threshold < zoom_velocity < config.velocity_threshold ==> r.pixels@
            == img.pixels@,
        !(-config.velocity_threshold < zoom_velocity < config.velocity_threshold) ==> forall|p: int|
            0 <= p < r.pixels.len() ==> #[trigger] r.pixels@[p] == blurred_pixel(
                img@,
                p,
                radial_params(
                    img.width as int,
                    img.height as int,
                    p % img.width as int,
                    p / img.width as int,
                    center_x as int,
                    center_y as int,
                    zoom_velocity as int,
                    *config,
                ),
                config.zoom_blur_samples as int,
            ),
{
    if -config.velocity_threshold < zoom_velocity && zoom_velocity < config.velocity_threshold {
        return img.duplicate();
    }
    let half = (if zoom_velocity < 0 {
        -zoom_velocity
    } else {
        zoom_velocity
    }) / 2;
    let norm = if half < UNIT {
        half
    } else {
        UNIT
    };
    proof {
        assert(0 <= config.zoom_blur_strength * norm <= MAX_BLUR_STRENGTH * UNIT) by (nonlinear_arith)
            requires
                0 <= config.zoom_blur_strength <= MAX_BLUR_STRENGTH,
                0 <= norm <= UNIT,
        ;
        vstd::arithmetic::div_mod::lemma_div_is_ordered(
            config.zoom_blur_strength * norm,
            MAX_BLUR_STRENGTH * UNIT,
            UNIT as int,
        );
        vstd::arithmetic::div_mod::lemma_div_by_multiple(MAX_BLUR_STRENGTH as int, UNIT as int);
        vstd::arithmetic::div_mod::lemma_div_pos_is_pos(config.zoom_blur_strength * norm, UNIT as int);
    }
    let amount = config.zoom_blur_strength * norm / UNIT;
    let w = img.width;
    let h = img.height;
    let max_dist = (if w > h {
        w as i64
    } else {
        h as i64
    }) * SUBUNITS / 2;
    let n = img.pixels.len();
    let mut out: Vec<Rgba> = Vec::new();
    let mut p: usize = 0;
    while p < n
        invariant
            img.wf(),
            config.wf(),
            n == img.pixels.len(),
            w == img.width,
            h == img.height,
            p <= n,
            out.len() == p,
            -MAX_CANVAS_COORD <= center_x <= MAX_CANVAS_COORD,
            -MAX_CANVAS_COORD <= center_y <= MAX_CANVAS_COORD,
            0 <= amount <= MAX_BLUR_STRENGTH,
            amount == config.zoom_blur_strength * norm / UNIT as int,
            norm as int == (if half < UNIT {
                half as int
            } else {
                UNIT as int
            }),
            half as int == (if zoom_velocity < 0 {
                -zoom_velocity as int
            } else {
                zoom_velocity as int
            }) / 2,
            max_dist == (if w > h {
                w
            } else {
                h
            }) * SUBUNITS / 2,
            forall|q: int|
                0 <= q < p ==> #[trigger] out@[q] == blurred_pixel(
                    img@,
                    q,
                    radial_params(
                        w as int,
                        h as int,
                        q % w as int,
                        q / w as int,
                        center_x as int,
                        center_y as int,
                        zoom_velocity as int,
                        *config,
                    ),
                    config.zoom_blur_samples as int,
                ),
        decreases n - p,
    {
        proof {
            if w == 0 {
                assert(w * h == 0);
            }
            if h == 0 {
                assert(w * h == 0) by (nonlinear_arith)
                    requires
                        h == 0,
                ;
            }
            lemma_coords_of_index(p as int, w as int, h as int);
        }
        let x = (p % (w as usize)) as u32;
        let y = (p / (w as usize)) as u32;
        let v = radial_blur_pixel(img, x, y, center_x, center_y, zoom_velocity, config, amount, max_dist);
        proof {
            assert(img@.at(x as int, y as int) == img.pixels@[p as int]);
        }
        out.push(v);
        p = p + 1;
    }
    Frame { width: w, height: h, pixels: out }
}

/// Pixels of `img` after the blur that motion `m` calls for: radial while
/// zooming faster than the threshold, directional while panning, none
/// otherwise or when disabled.
pub open spec fn motion_blurred(img: Image, m: MotionState, c: MotionBlurConfig) -> Seq<Rgba> {
    if !c.enabled || m.phase == MotionPhase::Idle || m.phase == MotionPhase::Hold {
        img.pixels
    } else if m.phase == MotionPhase::Pan {
        Seq::new(
            img.pixels.len(),
            |p: int|
                blurred_pixel(
                    img,
                    p,
                    directional_params(m.pan_velocity_x as int, m.pan_velocity_y as int, c),
                    c.pan_blur_samples as int,
                ),
        )
    } else if -c.velocity_threshold < m.zoom_velocity < c.velocity_threshold {
        img.pixels
    } else {
        Seq::new(
            img.pixels.len(),
            |p: int|
                blurred_pixel(
                    img,
                    p,
                    radial_params(
                        img.width as int,
                        img.height as int,
                        p % img.width as int,
                        p / img.width as int,
                        m.cursor_x as int,
                        m.cursor_y as int,
                        m.zoom_velocity as int,
                        c,
                    ),
                    c.zoom_blur_samples as int,
                ),
        )
    }
}

pub open spec fn motion_ok(m: MotionState) -> bool {
    &&& -MAX_CANVAS_COORD <= m.cursor_x <= MAX_CANVAS_COORD
    &&& -MAX_CANVAS_COORD <= m.cursor_y <= MAX_CANVAS_COORD
    &&& -MAX_VELOCITY <= m.zoom_velocity <= MAX_VELOCITY
    &&& -MAX_VELOCITY <= m.pan_velocity_x <= MAX_VELOCITY
    &&& -MAX_VELOCITY <= m.pan_velocity_y <= MAX_VELOCITY
}

/// Apply the blur that the motion phase calls for: radial while zooming,
/// directional while panning, none otherwise or when disabled.
pub fn apply_motion_blur(img: &Frame, motion: &MotionState, config: &MotionBlurConfig) -> (r: Frame)
    requires
        img.wf(),
        config.wf(),
        motion_ok(*motion),
    ensures
        r.wf(),
        r.width == img.width,
        r.height == img.height,
        r.pixels@ == motion_blurred(img@, *motion, *config),
{
    if !config.enabled {
        return img.duplicate();
    }
    match motion.phase {
        MotionPhase::Idle | MotionPhase::Hold => img.duplicate(),
        MotionPhase::ZoomIn | MotionPhase::ZoomOut => {
            let r = apply_radial_blur(
                img,
                motion.cursor_x,
                motion.cursor_y,
                motion.zoom_velocity,
                config,
            );
            assert(r.pixels@ =~= motion_blurred(img@, *motion, *config));
            r
        },
        MotionPhase::Pan => {
            let r = apply_directional_blur(
                img,
                motion.pan_velocity_x,
                motion.pan_velocity_y,
                config,
            );
            assert(r.pixels@ =~= motion_blurred(img@, *motion, *config));
            r
        },
    }
}

} // verus!
