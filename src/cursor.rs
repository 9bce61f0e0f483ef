//! Cursor smoothing (Gaussian-weighted, biased toward the past) and the
//! activity-driven opacity of the synthetic cursor.
use vstd::prelude::*;
use crate::events::{
    CursorEvent,
    event_ok,
    events_ok,
    last_at_or_before,
    latest_at_or_before,
    lemma_found_events_ok,
    MAX_COORD,
};
use crate::fixed::{UNIT, ease_out_cubic, ease_out_spec, lemma_ease_bounds, lemma_ease_out_monotonic};
use crate::zoom::{MAX_DURATION, time_ok};
use crate::fixed::{floor_div, SUBUNITS};
use crate::effects::MAX_CANVAS_COORD;
use crate::frame::{
    Frame,
    Rgba,
    MAX_DIM,
    ResizeFilter,
    blend_pixel,
    blend_pixel_spec,
    lemma_coords_of_index,
    resampled,
    resize,
};

verus! {

/// Largest smoothing window, in microseconds.
pub const MAX_SMOOTH_WINDOW: i64 = 1_000_000_000;

/// Largest cursor scale, in millionths (100×).
pub const MAX_CURSOR_SCALE: i64 = 100_000_000;

/// Cursor smoothing and fading; durations in microseconds, scale in millionths.
#[derive(Clone, Copy, Debug)]
pub struct CursorConfig {
    /// Width σ of the smoothing window.
    pub smooth_window: i64,
    /// Inactivity before the cursor starts fading.
    pub inactivity_timeout: i64,
    /// Duration of the fade.
    pub fade_duration: i64,
    /// Sprite scale.
    pub cursor_scale: i64,
}

impl CursorConfig {
    pub open spec fn wf(&self) -> bool {
        &&& 0 < self.smooth_window <= MAX_SMOOTH_WINDOW
        &&& 0 <= self.inactivity_timeout <= MAX_DURATION
        &&& 0 < self.fade_duration <= MAX_DURATION
        &&& 0 <= self.cursor_scale <= MAX_CURSOR_SCALE
    }

    /// The default configuration with the given scale and inactivity timeout.
    pub fn new(cursor_scale: i64, inactivity_timeout: i64) -> (r: Self)
        ensures
            r.cursor_scale == cursor_scale,
            r.inactivity_timeout == inactivity_timeout,
            r.smooth_window == 150_000,
            r.fade_duration == 300_000,
            0 <= cursor_scale <= MAX_CURSOR_SCALE && 0 <= inactivity_timeout <= MAX_DURATION
                ==> r.wf(),
    {
        CursorConfig { cursor_scale, inactivity_timeout, ..Default::default() }
    }
}

impl Default for CursorConfig {
    fn default() -> (r: Self)
        ensures
            r.smooth_window == 150_000,
            r.inactivity_timeout == 2_000_000,
            r.fade_duration == 300_000,
            r.cursor_scale == 1_500_000,
            r.wf(),
    {
        CursorConfig {
            smooth_window: 150_000,
            inactivity_timeout: 2_000_000,
            fade_duration: 300_000,
            cursor_scale: 1_500_000,
        }
    }
}

/// Smoothed cursor position (thousandths of a point) and opacity (millionths).
#[derive(Clone, Copy, Debug)]
pub struct CursorState {
    pub x: i64,
    pub y: i64,
    pub opacity: i64,
}

/// The events of `s` whose timestamps lie in `[lo, hi]`, in order.
pub open spec fn in_window(s: Seq<CursorEvent>, lo: int, hi: int) -> Seq<CursorEvent>
    decreases s.len(),
{
    if s.len() == 0 {
        Seq::empty()
    } else {
        let w = in_window(s.drop_last(), lo, hi);
        if lo <= s.last().timestamp <= hi {
            w.push(s.last())
        } else {
            w
        }
    }
}

/// `Δ'² / (2σ²)` in millionths, where `Δ'` doubles a positive offset.
pub open spec fn gauss_exponent(dt: int, sigma: int) -> int {
    let d = if dt > 0 {
        2 * dt
    } else {
        dt
    };
    d * d * UNIT / (2 * sigma * sigma)
}

/// `1 + u + u²/2! + … + u⁶/6!` in millionths, each term from the one before.
pub open spec fn exp_series(u: int) -> int {
    let u1 = UNIT as int;
    let t2 = u * u / (2 * u1);
    let t3 = t2 * u / (3 * u1);
    let t4 = t3 * u / (4 * u1);
    let t5 = t4 * u / (5 * u1);
    let t6 = t5 * u / (6 * u1);
    u1 + u + t2 + t3 + t4 + t5 + t6
}

/// The Gaussian weight `exp(−Δ'²/(2σ²))`, in millionths.
pub open spec fn gauss_weight(dt: int, sigma: int) -> int {
    UNIT * UNIT / exp_series(gauss_exponent(dt, sigma))
}

pub open spec fn sum_weights(s: Seq<CursorEvent>, t: int, sigma: int) -> int
    decreases s.len(),
{
    if s.len() == 0 {
        0
    } else {
        sum_weights(s.drop_last(), t, sigma) + gauss_weight(s.last().timestamp - t, sigma)
    }
}

pub open spec fn sum_weighted_x(s: Seq<CursorEvent>, t: int, sigma: int) -> int
    decreases s.len(),
{
    if s.len() == 0 {
        0
    } else {
        sum_weighted_x(s.drop_last(), t, sigma) + gauss_weight(s.last().timestamp - t, sigma)
            * s.last().x
    }
}

pub open spec fn sum_weighted_y(s: Seq<CursorEvent>, t: int, sigma: int) -> int
    decreases s.len(),
{
    if s.len() == 0 {
        0
    } else {
        sum_weighted_y(s.drop_last(), t, sigma) + gauss_weight(s.last().timestamp - t, sigma)
            * s.last().y
    }
}

/// Lower and upper ends of the smoothing window around `t`.
pub open spec fn window_lo(t: int, sigma: int) -> int {
    t - 2 * sigma
}

pub open spec fn window_hi(t: int, sigma: int) -> int {
    t + sigma / 2
}

/// Smoothed position at `t`: the weighted mean of the events in the window,
/// rounded down; a single event in the window as it is; with none, the
/// latest event at or before `t`, or the origin.
pub open spec fn smoothed_position(s: Seq<CursorEvent>, t: int, sigma: int) -> (int, int) {
    let w = in_window(s, window_lo(t, sigma), window_hi(t, sigma));
    if w.len() == 0 {
        match last_at_or_before(s, t) {
            Some(e) => (e.x as int, e.y as int),
            None => (0int, 0int),
        }
    } else if w.len() == 1 {
        (w[0].x as int, w[0].y as int)
    } else {
        (
            sum_weighted_x(w, t, sigma) / sum_weights(w, t, sigma),
            sum_weighted_y(w, t, sigma) / sum_weights(w, t, sigma),
        )
    }
}

/// Opacity at `t` in millionths: full while active, an ease-out fade after
/// the inactivity timeout, then hidden; hidden before the first event.
pub open spec fn activity_opacity(s: Seq<CursorEvent>, t: int, c: CursorConfig) -> int {
    match last_at_or_before(s, t) {
        None => 0,
        Some(e) => {
            let idle = t - e.timestamp;
            if idle < c.inactivity_timeout {
                UNIT as int
            } else if idle < c.inactivity_timeout + c.fade_duration {
                UNIT - ease_out_spec((idle - c.inactivity_timeout) * UNIT / (c.fade_duration as int))
            } else {
                0
            }
        },
    }
}

pub proof fn lemma_window_members(s: Seq<CursorEvent>, lo: int, hi: int)
    requires
        events_ok(s),
    ensures
        events_ok(in_window(s, lo, hi)),
        forall|i: int|
            0 <= i < in_window(s, lo, hi).len() ==> lo <= #[trigger] in_window(s, lo, hi)[i].timestamp
                <= hi,
    decreases s.len(),
{
    if s.len() > 0 {
        lemma_window_members(s.drop_last(), lo, hi);
        assert(event_ok(s[s.len() - 1]));
        let w = in_window(s.drop_last(), lo, hi);
        assert forall|i: int| 0 <= i < w.push(s.last()).len() implies #[trigger] event_ok(
            w.push(s.last())[i],
        ) by {
            if i < w.len() {
                assert(event_ok(w[i]));
            }
        }
    }
}

pub proof fn lemma_exp_series_bounds(u: int)
    requires
        0 <= u <= 2 * UNIT,
    ensures
        UNIT <= exp_series(u) <= 13 * UNIT,
{
    let u1 = UNIT as int;
    let t2 = u * u / (2 * u1);
    let t3 = t2 * u / (3 * u1);
    let t4 = t3 * u / (4 * u1);
    let t5 = t4 * u / (5 * u1);
    let t6 = t5 * u / (6 * u1);
    lemma_next_term(u, u, 2);
    lemma_next_term(t2, u, 3);
    lemma_next_term(t3, u, 4);
    lemma_next_term(t4, u, 5);
    lemma_next_term(t5, u, 6);
}

pub proof fn lemma_next_term(prev: int, u: int, k: int)
    requires
        0 <= prev <= 2 * UNIT,
        0 <= u <= 2 * UNIT,
        2 <= k,
    ensures
        0 <= prev * u / (k * UNIT) <= 2 * UNIT,
{
    let u1 = UNIT as int;
    assert(0 <= prev * u <= 4 * u1 * u1) by (nonlinear_arith)
        requires
            0 <= prev <= 2 * u1,
            0 <= u <= 2 * u1,
    ;
    assert(4 * u1 * u1 <= 2 * u1 * (k * u1)) by (nonlinear_arith)
        requires
            2 <= k,
            u1 > 0,
    ;
    assert(k * u1 > 0) by (nonlinear_arith)
        requires
            2 <= k,
            u1 > 0,
    ;
    vstd::arithmetic::div_mod::lemma_div_is_ordered(prev * u, 2 * u1 * (k * u1), k * u1);
    vstd::arithmetic::div_mod::lemma_div_by_multiple(2 * u1, k * u1);
    vstd::arithmetic::div_mod::lemma_div_pos_is_pos(prev * u, k * u1);
}

/// One term of the exponential series from the one before it.
fn next_term(prev: i64, u: i64, k: i64) -> (r: i64)
    requires
        0 <= prev <= 2 * UNIT,
        0 <= u <= 2 * UNIT,
        2 <= k <= 6,
    ensures
        r == prev * u / (k * UNIT),
        0 <= r <= 2 * UNIT,
{
    proof {
        lemma_next_term(prev as int, u as int, k as int);
        assert(prev * u <= 4 * UNIT * UNIT) by (nonlinear_arith)
            requires
                0 <= prev <= 2 * UNIT,
                0 <= u <= 2 * UNIT,
        ;
    }
    prev * u / (k * UNIT)
}

pub proof fn lemma_gauss_weight_bounds(dt: int, sigma: int)
    requires
        0 < sigma <= MAX_SMOOTH_WINDOW,
        -2 * sigma <= dt <= sigma / 2,
    ensures
        0 <= gauss_exponent(dt, sigma) <= 2 * UNIT,
        0 < gauss_weight(dt, sigma) <= UNIT,
{
    let d = if dt > 0 {
        2 * dt
    } else {
        dt
    };
    let ss = 2 * sigma * sigma;
    assert(ss > 0) by (nonlinear_arith)
        requires
            ss == 2 * sigma * sigma,
            sigma > 0,
    ;
    assert(0 <= d * d * UNIT <= 2 * UNIT * ss) by (nonlinear_arith)
        requires
            ss == 2 * sigma * sigma,
            -2 * sigma <= d <= 2 * sigma,
    ;
    vstd::arithmetic::div_mod::lemma_div_is_ordered(d * d * UNIT, 2 * UNIT * ss, ss);
    vstd::arithmetic::div_mod::lemma_div_by_multiple(2 * UNIT as int, ss);
    vstd::arithmetic::div_mod::lemma_div_pos_is_pos(d * d * UNIT, ss);
    let u = gauss_exponent(dt, sigma);
    lemma_exp_series_bounds(u);
    let series = exp_series(u);
    vstd::arithmetic::div_mod::lemma_div_is_ordered_by_denominator(UNIT * UNIT, UNIT as int, series);
    vstd::arithmetic::div_mod::lemma_div_is_ordered_by_denominator(UNIT * UNIT, series, 13 * UNIT);
    assert(UNIT * UNIT / (UNIT as int) == UNIT);
    assert(UNIT * UNIT / (13 * UNIT) > 0);
}

/// Gaussian weight of an event `dt` microseconds from the query time.
pub fn gaussian_weight(dt: i64, sigma: i64) -> (w: i64)
    requires
        0 < sigma <= MAX_SMOOTH_WINDOW,
        -2 * sigma <= dt <= sigma / 2,
    ensures
        w == gauss_weight(dt as int, sigma as int),
        0 < w <= UNIT,
{
    proof {
        lemma_gauss_weight_bounds(dt as int, sigma as int);
    }
    let d: i64 = if dt > 0 {
        2 * dt
    } else {
        dt
    };
    proof {
        assert(0 <= d * d <= 4 * sigma * sigma <= 4_000_000_000_000_000_000int) by (nonlinear_arith)
            requires
                -2 * sigma <= d <= 2 * sigma,
                0 < sigma <= 1_000_000_000,
        ;
        assert(0 < sigma * sigma <= 1_000_000_000_000_000_000int) by (nonlinear_arith)
            requires
                0 < sigma <= 1_000_000_000,
        ;
    }
    let dd: i64 = d * d;
    let ss: i64 = 2 * (sigma * sigma);
    proof {
        assert(2 * (sigma * sigma) == 2 * sigma * sigma) by (nonlinear_arith);
        assert(dd * UNIT <= 4_000_000_000_000_000_000_000_000int) by (nonlinear_arith)
            requires
                0 <= dd <= 4_000_000_000_000_000_000int,
        ;
    }
    let num: i128 = (dd as i128) * (UNIT as i128);
    let u = (num / (ss as i128)) as i64;
    let t2 = next_term(u, u, 2);
    let t3 = next_term(t2, u, 3);
    let t4 = next_term(t3, u, 4);
    let t5 = next_term(t4, u, 5);
    let t6 = next_term(t5, u, 6);
    let series = UNIT + u + t2 + t3 + t4 + t5 + t6;
    proof {
        lemma_exp_series_bounds(u as int);
        assert(series == exp_series(u as int));
    }
    UNIT * UNIT / series
}

/// `num / den` rounded down, for a quotient known to lie within the
/// coordinate range.
fn floor_div_coord(num: i128, den: i128) -> (r: i64)
    requires
        0 < den <= 100_000_000_000_000_000_000_000_000,
        -(MAX_COORD * den) <= num <= MAX_COORD * den,
    ensures
        r == num / den,
        -MAX_COORD <= r <= MAX_COORD,
{
    let m = MAX_COORD as i128;
    let shifted = num + m * den;
    proof {
        let n = num as int;
        let d = den as int;
        let q = n / d;
        let rem = n % d;
        vstd::arithmetic::div_mod::lemma_fundamental_div_mod(n, d);
        assert(shifted == (q + MAX_COORD) * d + rem) by (nonlinear_arith)
            requires
                shifted == n + MAX_COORD * d,
                n == d * q + rem,
        ;
        vstd::arithmetic::div_mod::lemma_fundamental_div_mod_converse(shifted as int, d, q + MAX_COORD, rem);
        assert(2 * MAX_COORD * d == 2 * (MAX_COORD * d)) by (nonlinear_arith);
        assert(MAX_COORD * d == m * den);
        assert(shifted >= 0);
        assert(shifted <= 2 * (MAX_COORD * d));
        vstd::arithmetic::div_mod::lemma_div_is_ordered(shifted as int, 2 * MAX_COORD * d, d);
        vstd::arithmetic::div_mod::lemma_div_by_multiple(2 * MAX_COORD as int, d);
        vstd::arithmetic::div_mod::lemma_div_pos_is_pos(shifted as int, d);
    }
    (shifted / den - m) as i64
}

/// The events of `events` within `[lo, hi]`, in order.
pub fn events_in_window(events: &Vec<CursorEvent>, lo: i64, hi: i64) -> (r: Vec<CursorEvent>)
    ensures
        r@ == in_window(events@, lo as int, hi as int),
{
    let mut w: Vec<CursorEvent> = Vec::new();
    let mut i: usize = 0;
    while i < events.len()
        invariant
            i <= events.len(),
            w@ == in_window(events@.take(i as int), lo as int, hi as int),
        decreases events.len() - i,
    {
        assert(events@.take(i + 1).drop_last() =~= events@.take(i as int));
        let e = events[i];
        if lo <= e.timestamp && e.timestamp <= hi {
            w.push(e);
        }
        i = i + 1;
    }
    assert(events@.take(i as int) =~= events@);
    w
}

/// Gaussian-weighted moving average of the cursor position around `t`.
pub fn get_smoothed_position(timestamp: i64, cursor_events: &Vec<CursorEvent>, smooth_window: i64) -> (r: (
    i64,
    i64,
))
    requires
        events_ok(cursor_events@),
        0 < smooth_window <= MAX_SMOOTH_WINDOW,
        time_ok(timestamp as int),
    ensures
        (r.0 as int, r.1 as int) == smoothed_position(
            cursor_events@,
            timestamp as int,
            smooth_window as int,
        ),
        -MAX_COORD <= r.0 <= MAX_COORD,
        -MAX_COORD <= r.1 <= MAX_COORD,
{
    let t = timestamp;
    let sigma = smooth_window;
    let lo = t - 2 * sigma;
    let hi = t + sigma / 2;
    let w = events_in_window(cursor_events, lo, hi);
    proof {
        lemma_window_members(cursor_events@, lo as int, hi as int);
    }
    if w.len() == 0 {
        proof {
            lemma_found_events_ok(cursor_events@, t as int);
        }
        let (x, y) = crate::events::position_at(cursor_events, t);
        return (x, y);
    }
    if w.len() == 1 {
        assert(event_ok(w@[0]));
        return (w[0].x, w[0].y);
    }
    let mut sw: i128 = 0;
    let mut sx: i128 = 0;
    let mut sy: i128 = 0;
    let mut j: usize = 0;
    while j < w.len()
        invariant
            j <= w.len(),
            events_ok(w@),
            forall|i: int| 0 <= i < w.len() ==> lo <= #[trigger] w@[i].timestamp <= hi,
            lo == t - 2 * sigma,
            hi == t + sigma / 2,
            0 < sigma <= MAX_SMOOTH_WINDOW,
            sw == sum_weights(w@.take(j as int), t as int, sigma as int),
            sx == sum_weighted_x(w@.take(j as int), t as int, sigma as int),
            sy == sum_weighted_y(w@.take(j as int), t as int, sigma as int),
            j <= sw <= j * UNIT,
            -(MAX_COORD * sw) <= sx <= MAX_COORD * sw,
            -(MAX_COORD * sw) <= sy <= MAX_COORD * sw,
        decreases w.len() - j,
    {
        assert(w@.take(j + 1).drop_last() =~= w@.take(j as int));
        let e = w[j];
        proof {
            assert(event_ok(w@[j as int]));
            assert(lo <= w@[j as int].timestamp <= hi);
        }
        let wt = gaussian_weight(e.timestamp - t, sigma);
        proof {
            assert(-(MAX_COORD * wt) <= wt * e.x <= MAX_COORD * wt) by (nonlinear_arith)
                requires
                    0 < wt,
                    -MAX_COORD <= e.x <= MAX_COORD,
            ;
            assert(-(MAX_COORD * UNIT) <= wt * e.x <= MAX_COORD * UNIT) by (nonlinear_arith)
                requires
                    0 < wt <= UNIT,
                    -MAX_COORD <= e.x <= MAX_COORD,
            ;
            assert(-(MAX_COORD * UNIT) <= wt * e.y <= MAX_COORD * UNIT) by (nonlinear_arith)
                requires
                    0 < wt <= UNIT,
                    -MAX_COORD <= e.y <= MAX_COORD,
            ;
            assert(-(MAX_COORD * wt) <= wt * e.y <= MAX_COORD * wt) by (nonlinear_arith)
                requires
                    0 < wt,
                    -MAX_COORD <= e.y <= MAX_COORD,
            ;
            assert(j * UNIT <= 18_446_744_073_709_551_615int * UNIT) by (nonlinear_arith)
                requires
                    j <= 18_446_744_073_709_551_615int,
            ;
            assert(MAX_COORD * sw <= MAX_COORD * 20_000_000_000_000_000_000_000_000int) by (
            nonlinear_arith)
                requires
                    0 <= sw <= 20_000_000_000_000_000_000_000_000int,
            ;
            assert((wt as i128) * (e.x as i128) == wt * e.x);
            assert((wt as i128) * (e.y as i128) == wt * e.y);
        }
        sw = sw + wt as i128;
        sx = sx + (wt as i128) * (e.x as i128);
        sy = sy + (wt as i128) * (e.y as i128);
        j = j + 1;
    }
    assert(w@.take(j as int) =~= w@);
    (floor_div_coord(sx, sw), floor_div_coord(sy, sw))
}

/// Cursor opacity at `t` from the time since the latest event.
pub fn calculate_activity_opacity(timestamp: i64, cursor_events: &Vec<CursorEvent>, config: &CursorConfig) -> (r: i64)
    requires
        events_ok(cursor_events@),
        config.wf(),
        time_ok(timestamp as int),
    ensures
        r == activity_opacity(cursor_events@, timestamp as int, *config),
        0 <= r <= UNIT,
{
    proof {
        lemma_found_events_ok(cursor_events@, timestamp as int);
    }
    let last = match latest_at_or_before(cursor_events, timestamp) {
        Some(e) => e,
        None => return 0,
    };
    let idle = timestamp - last.timestamp;
    if idle < config.inactivity_timeout {
        UNIT
    } else if idle < config.inactivity_timeout + config.fade_duration {
        let d = idle - config.inactivity_timeout;
        proof {
            lemma_fraction_bounds(d as int, config.fade_duration as int);
        }
        let p = d * UNIT / config.fade_duration;
        UNIT - ease_out_cubic(p)
    } else {
        0
    }
}

/// `d · UNIT / span` is a fraction when `0 ≤ d ≤ span`.
pub proof fn lemma_fraction_bounds(d: int, span: int)
    requires
        0 <= d <= span,
        0 < span,
    ensures
        0 <= d * UNIT <= span * UNIT,
        0 <= d * UNIT / span <= UNIT,
{
    assert(0 <= d * UNIT <= span * UNIT) by (nonlinear_arith)
        requires
            0 <= d <= span,
    ;
    vstd::arithmetic::div_mod::lemma_div_is_ordered(d * UNIT, span * UNIT, span);
    vstd::arithmetic::div_mod::lemma_div_pos_is_pos(d * UNIT, span);
    assert(span * UNIT == UNIT * span) by (nonlinear_arith);
    vstd::arithmetic::div_mod::lemma_div_by_multiple(UNIT as int, span);
}

/// Smoothed cursor position and opacity at `t`.
pub fn get_smoothed_cursor(timestamp: i64, cursor_events: &Vec<CursorEvent>, config: &CursorConfig) -> (r: CursorState)
    requires
        events_ok(cursor_events@),
        config.wf(),
        time_ok(timestamp as int),
    ensures
        (r.x as int, r.y as int) == smoothed_position(
            cursor_events@,
            timestamp as int,
            config.smooth_window as int,
        ),
        r.opacity == activity_opacity(cursor_events@, timestamp as int, *config),
        -MAX_COORD <= r.x <= MAX_COORD,
        -MAX_COORD <= r.y <= MAX_COORD,
        0 <= r.opacity <= UNIT,
{
    let (x, y) = get_smoothed_position(timestamp, cursor_events, config.smooth_window);
    let opacity = calculate_activity_opacity(timestamp, cursor_events, config);
    CursorState { x, y, opacity }
}

pub proof fn lemma_weighted_sums_in_box(
    w: Seq<CursorEvent>,
    t: int,
    sigma: int,
    lo_x: int,
    hi_x: int,
    lo_y: int,
    hi_y: int,
)
    requires
        0 < sigma <= MAX_SMOOTH_WINDOW,
        forall|i: int|
            0 <= i < w.len() ==> window_lo(t, sigma) <= #[trigger] w[i].timestamp <= window_hi(
                t,
                sigma,
            ),
        forall|i: int|
            0 <= i < w.len() ==> lo_x <= #[trigger] w[i].x <= hi_x && lo_y <= w[i].y <= hi_y,
    ensures
        sum_weights(w, t, sigma) >= w.len(),
        lo_x * sum_weights(w, t, sigma) <= sum_weighted_x(w, t, sigma) <= hi_x * sum_weights(
            w,
            t,
            sigma,
        ),
        lo_y * sum_weights(w, t, sigma) <= sum_weighted_y(w, t, sigma) <= hi_y * sum_weights(
            w,
            t,
            sigma,
        ),
    decreases w.len(),
{
    if w.len() > 0 {
        let init = w.drop_last();
        lemma_weighted_sums_in_box(init, t, sigma, lo_x, hi_x, lo_y, hi_y);
        let e = w.last();
        assert(window_lo(t, sigma) <= w[w.len() - 1].timestamp <= window_hi(t, sigma));
        assert(lo_x <= w[w.len() - 1].x <= hi_x);
        lemma_gauss_weight_bounds(e.timestamp - t, sigma);
        let g = gauss_weight(e.timestamp - t, sigma);
        let sw = sum_weights(init, t, sigma);
        assert(lo_x * (sw + g) == lo_x * sw + lo_x * g && hi_x * (sw + g) == hi_x * sw + hi_x * g
            && lo_y * (sw + g) == lo_y * sw + lo_y * g && hi_y * (sw + g) == hi_y * sw + hi_y * g)
            by (nonlinear_arith);
        assert(lo_x * g <= g * e.x <= hi_x * g) by (nonlinear_arith)
            requires
                g > 0,
                lo_x <= e.x <= hi_x,
        ;
        assert(lo_y * g <= g * e.y <= hi_y * g) by (nonlinear_arith)
            requires
                g > 0,
                lo_y <= e.y <= hi_y,
        ;
    }
}

/// Smoothing stays within bounds: when the window around `t` holds events,
/// the smoothed position lies in any box that contains all of them.
pub proof fn lemma_smoothing_bounded(
    events: Seq<CursorEvent>,
    t: int,
    sigma: int,
    lo_x: int,
    hi_x: int,
    lo_y: int,
    hi_y: int,
)
    requires
        0 < sigma <= MAX_SMOOTH_WINDOW,
        in_window(events, window_lo(t, sigma), window_hi(t, sigma)).len() > 0,
        forall|i: int|
            0 <= i < in_window(events, window_lo(t, sigma), window_hi(t, sigma)).len() ==> lo_x
                <= #[trigger] in_window(events, window_lo(t, sigma), window_hi(t, sigma))[i].x
                <= hi_x && lo_y <= in_window(events, window_lo(t, sigma), window_hi(t, sigma))[i].y
                <= hi_y,
    ensures
        lo_x <= smoothed_position(events, t, sigma).0 <= hi_x,
        lo_y <= smoothed_position(events, t, sigma).1 <= hi_y,
{
    let w = in_window(events, window_lo(t, sigma), window_hi(t, sigma));
    assert(lo_x <= w[0].x <= hi_x);
    if w.len() > 1 {
        lemma_window_bounds(events, window_lo(t, sigma), window_hi(t, sigma));
        lemma_weighted_sums_in_box(w, t, sigma, lo_x, hi_x, lo_y, hi_y);
        let sw = sum_weights(w, t, sigma);
        lemma_quotient_in_range(sum_weighted_x(w, t, sigma), sw, lo_x, hi_x);
        lemma_quotient_in_range(sum_weighted_y(w, t, sigma), sw, lo_y, hi_y);
    }
}

pub proof fn lemma_quotient_in_range(n: int, d: int, lo: int, hi: int)
    requires
        d > 0,
        lo * d <= n <= hi * d,
    ensures
        lo <= n / d <= hi,
{
    vstd::arithmetic::div_mod::lemma_div_is_ordered(lo * d, n, d);
    vstd::arithmetic::div_mod::lemma_div_is_ordered(n, hi * d, d);
    vstd::arithmetic::div_mod::lemma_div_multiples_vanish(lo, d);
    vstd::arithmetic::div_mod::lemma_div_multiples_vanish(hi, d);
    assert(lo * d == d * lo && hi * d == d * hi) by (nonlinear_arith);
}

pub proof fn lemma_window_bounds(s: Seq<CursorEvent>, lo: int, hi: int)
    ensures
        forall|i: int|
            0 <= i < in_window(s, lo, hi).len() ==> lo <= #[trigger] in_window(s, lo, hi)[i].timestamp
                <= hi,
    decreases s.len(),
{
    if s.len() > 0 {
        lemma_window_bounds(s.drop_last(), lo, hi);
    }
}

/// After the last event, the cursor opacity never increases with time.
pub proof fn lemma_opacity_non_increasing(events: Seq<CursorEvent>, c: CursorConfig, t1: int, t2: int)
    requires
        c.wf(),
        forall|i: int| 0 <= i < events.len() ==> #[trigger] events[i].timestamp <= t1,
        t1 <= t2,
    ensures
        activity_opacity(events, t2, c) <= activity_opacity(events, t1, c),
{
    if events.len() > 0 {
        assert(events[events.len() - 1].timestamp <= t1);
        let e = events.last();
        let f = c.fade_duration as int;
        let idle1 = t1 - e.timestamp;
        let idle2 = t2 - e.timestamp;
        let to = c.inactivity_timeout as int;
        if idle1 >= to && idle1 < to + f {
            lemma_fraction_bounds(idle1 - to, f);
            lemma_ease_bounds((idle1 - to) * UNIT / f);
            if idle2 < to + f {
                lemma_fraction_bounds(idle2 - to, f);
                vstd::arithmetic::div_mod::lemma_div_is_ordered((idle1 - to) * UNIT, (idle2 - to) * UNIT, f);
                lemma_ease_out_monotonic((idle1 - to) * UNIT / f, (idle2 - to) * UNIT / f);
            }
        } else if idle1 < to {
            if idle2 >= to && idle2 < to + f {
                lemma_fraction_bounds(idle2 - to, f);
                lemma_ease_bounds((idle2 - to) * UNIT / f);
            }
        }
    }
}

/// Height of the cursor sprite at scale 1, in pixels.
pub const CURSOR_BASE_HEIGHT: i64 = 32;

/// Size of the sprite drawn at `scale` (millionths): normalised to the base
/// height, then scaled.
pub open spec fn cursor_size(sprite_w: int, sprite_h: int, scale: int) -> (int, int) {
    (
        sprite_w * CURSOR_BASE_HEIGHT * scale / (sprite_h * UNIT),
        CURSOR_BASE_HEIGHT * scale / UNIT as int,
    )
}

/// Canvas pixel `(x, y)` after drawing `sprite` with its tip at `(px, py)`:
/// the sprite pixel covering it, if visible, blended with its alpha scaled
/// by `opacity` (millionths).
pub open spec fn cursor_pixel(
    bg: Rgba,
    x: int,
    y: int,
    sprite: Seq<Rgba>,
    sw: int,
    sh: int,
    px: int,
    py: int,
    opacity: int,
) -> Rgba {
    if px <= x < px + sw && py <= y < py + sh {
        let c = sprite[(y - py) * sw + (x - px)];
        if c.a > 0 {
            blend_pixel_spec(bg, c, c.a * opacity / UNIT as int)
        } else {
            bg
        }
    } else {
        bg
    }
}

fn blit_cursor(canvas: &mut Frame, sprite: &Frame, px: i64, py: i64, opacity: i64)
    requires
        old(canvas).wf(),
        sprite.wf(),
        0 <= opacity <= UNIT,
        -MAX_CANVAS_COORD <= px <= MAX_CANVAS_COORD,
        -MAX_CANVAS_COORD <= py <= MAX_CANVAS_COORD,
    ensures
        final(canvas).wf(),
        final(canvas).width == old(canvas).width,
        final(canvas).height == old(canvas).height,
        final(canvas).pixels@ == Seq::new(
            old(canvas).pixels@.len(),
            |q: int|
                cursor_pixel(
                    old(canvas).pixels@[q],
                    q % (old(canvas).width as int),
                    q / (old(canvas).width as int),
                    sprite.pixels@,
                    sprite.width as int,
                    sprite.height as int,
                    px as int,
                    py as int,
                    opacity as int,
                ),
        ),
{
    let ghost before = canvas.pixels@;
    let w = canvas.width;
    let h = canvas.height;
    let n = canvas.pixels.len();
    let mut p: usize = 0;
    while p < n
        invariant
            canvas.wf(),
            sprite.wf(),
            canvas.width == w,
            canvas.height == h,
            w == old(canvas).width,
            h == old(canvas).height,
            before == old(canvas).pixels@,
            n == canvas.pixels.len(),
            n == before.len(),
            p <= n,
            0 <= opacity <= UNIT,
            -MAX_CANVAS_COORD <= px <= MAX_CANVAS_COORD,
            -MAX_CANVAS_COORD <= py <= MAX_CANVAS_COORD,
            forall|q: int|
                0 <= q < p ==> #[trigger] canvas.pixels@[q] == cursor_pixel(
                    before[q],
                    q % (w as int),
                    q / (w as int),
                    sprite.pixels@,
                    sprite.width as int,
                    sprite.height as int,
                    px as int,
                    py as int,
                    opacity as int,
                ),
            forall|q: int| p <= q < n ==> #[trigger] canvas.pixels@[q] == before[q],
        decreases n - p,
    {
        proof {
            if w == 0 {
                assert(w * h == 0);
            }
            lemma_coords_of_index(p as int, w as int, h as int);
        }
        let x = (p % (w as usize)) as i64;
        let y = (p / (w as usize)) as i64;
        if px <= x && x < px + sprite.width as i64 && py <= y && y < py + sprite.height as i64 {
            let c = sprite.get_pixel((x - px) as u32, (y - py) as u32);
            if c.a > 0 {
                proof {
                    assert(0 <= c.a * opacity <= 255 * UNIT) by (nonlinear_arith)
                        requires
                            0 <= c.a <= 255,
                            0 <= opacity <= UNIT,
                    ;
                    vstd::arithmetic::div_mod::lemma_div_is_ordered(c.a * opacity, 255 * UNIT, UNIT as int);
                    vstd::arithmetic::div_mod::lemma_div_by_multiple(255, UNIT as int);
                    vstd::arithmetic::div_mod::lemma_div_pos_is_pos(c.a * opacity, UNIT as int);
                }
                let alpha = ((c.a as i64) * opacity / UNIT) as u8;
                let bg = canvas.pixels[p];
                canvas.pixels.set(p, blend_pixel(bg, c, alpha));
            }
        }
        p = p + 1;
    }
    proof {
        assert(canvas.pixels@ =~= Seq::new(
            before.len(),
            |q: int|
                cursor_pixel(
                    before[q],
                    q % (w as int),
                    q / (w as int),
                    sprite.pixels@,
                    sprite.width as int,
                    sprite.height as int,
                    px as int,
                    py as int,
                    opacity as int,
                ),
        ));
    }
}

/// Draw the cursor `sprite` with its tip at canvas point `(x, y)`
/// (thousandths of a pixel), resized with Lanczos filtering to
/// `cursor_size(…, scale)` and faded by `opacity` (millionths).
pub fn draw_cursor(canvas: &mut Frame, sprite: &Frame, x: i64, y: i64, scale: i64, opacity: i64)
    requires
        old(canvas).wf(),
        sprite.wf(),
        0 < sprite.height,
        0 <= scale <= MAX_CURSOR_SCALE,
        0 <= opacity <= UNIT,
        cursor_size(sprite.width as int, sprite.height as int, scale as int).0 <= MAX_DIM,
        -MAX_CANVAS_COORD <= x <= MAX_CANVAS_COORD,
        -MAX_CANVAS_COORD <= y <= MAX_CANVAS_COORD,
    ensures
        final(canvas).wf(),
        final(canvas).width == old(canvas).width,
        final(canvas).height == old(canvas).height,
        final(canvas).pixels@ == Seq::new(
            old(canvas).pixels@.len(),
            |q: int|
                cursor_pixel(
                    old(canvas).pixels@[q],
                    q % (old(canvas).width as int),
                    q / (old(canvas).width as int),
                    resampled(
                        sprite.pixels@,
                        sprite.width as int,
                        sprite.height as int,
                        cursor_size(sprite.width as int, sprite.height as int, scale as int).0,
                        cursor_size(sprite.width as int, sprite.height as int, scale as int).1,
                        ResizeFilter::Lanczos3,
                    ),
                    cursor_size(sprite.width as int, sprite.height as int, scale as int).0,
                    cursor_size(sprite.width as int, sprite.height as int, scale as int).1,
                    x as int / SUBUNITS as int,
                    y as int / SUBUNITS as int,
                    opacity as int,
                ),
        ),
{
    proof {
        assert(0 <= CURSOR_BASE_HEIGHT * scale <= 32 * MAX_CURSOR_SCALE);
        assert(0 <= sprite.width * CURSOR_BASE_HEIGHT * scale <= 16384 * 32 * 100_000_000) by (nonlinear_arith)
            requires
                0 <= sprite.width <= 16384,
                0 <= scale <= 100_000_000,
        ;
        assert(sprite.height * UNIT > 0) by (nonlinear_arith)
            requires
                sprite.height > 0,
        ;
        vstd::arithmetic::div_mod::lemma_div_pos_is_pos(CURSOR_BASE_HEIGHT * scale, UNIT as int);
        vstd::arithmetic::div_mod::lemma_div_pos_is_pos(sprite.width * CURSOR_BASE_HEIGHT * scale, sprite.height * UNIT);
    }
    let sw = ((sprite.width as i64) * CURSOR_BASE_HEIGHT * scale / ((sprite.height as i64) * UNIT)) as u32;
    let sh = (CURSOR_BASE_HEIGHT * scale / UNIT) as u32;
    let scaled = resize(sprite, sw, sh, ResizeFilter::Lanczos3);
    let px = floor_div(x as i128, SUBUNITS as i128) as i64;
    let py = floor_div(y as i128, SUBUNITS as i128) as i64;
    proof {
        vstd::arithmetic::div_mod::lemma_div_is_ordered(x as int, MAX_CANVAS_COORD as int, 1000);
        vstd::arithmetic::div_mod::lemma_div_is_ordered(-MAX_CANVAS_COORD as int, x as int, 1000);
        vstd::arithmetic::div_mod::lemma_div_is_ordered(y as int, MAX_CANVAS_COORD as int, 1000);
        vstd::arithmetic::div_mod::lemma_div_is_ordered(-MAX_CANVAS_COORD as int, y as int, 1000);
    }
    blit_cursor(canvas, &scaled, px, py, opacity);
}

} // verus!
