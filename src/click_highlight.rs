//! Click ripples: an expanding, fading ring for every click.
use vstd::prelude::*;
use crate::events::{CursorEvent, event_is_click, event_ok, events_ok, is_click};
use crate::fixed::{UNIT, SUBUNITS, ease_out_cubic, ease_out_spec, isqrt, sqrt_floor};
use crate::effects::MAX_CANVAS_COORD;
use crate::frame::{Frame, Rgba, blend_pixel, blend_pixel_spec, lemma_coords_of_index};
use crate::zoom::{MAX_DURATION, time_ok};

verus! {

/// Largest ripple radius or ring width, in thousandths of a pixel.
pub const MAX_RING_SIZE: i64 = 10_000_000;

/// Ripple appearance; durations in microseconds, sizes in thousandths of a
/// canvas pixel.
#[derive(Clone, Copy, Debug)]
pub struct ClickHighlightConfig {
    pub enabled: bool,
    /// How long one ripple lasts.
    pub duration: i64,
    /// Radius the ring reaches at the end.
    pub max_radius: i64,
    /// Width of the ring stroke.
    pub ring_width: i64,
    /// Color of the ring.
    pub color: Rgba,
}

impl ClickHighlightConfig {
    pub open spec fn wf(&self) -> bool {
        &&& 0 < self.duration <= MAX_DURATION
        &&& 0 <= self.max_radius <= MAX_RING_SIZE
        &&& 0 <= self.ring_width <= MAX_RING_SIZE
    }
}

impl Default for ClickHighlightConfig {
    fn default() -> (r: Self)
        ensures
            r.enabled,
            r.duration == 400_000,
            r.max_radius == 50_000,
            r.ring_width == 3_000,
            r.color == (Rgba { r: 255, g: 255, b: 255, a: 255 }),
            r.wf(),
    {
        ClickHighlightConfig {
            enabled: true,
            duration: 400_000,
            max_radius: 50_000,
            ring_width: 3_000,
            color: Rgba { r: 255, g: 255, b: 255, a: 255 },
        }
    }
}

/// A ripple in progress: its centre and its progress in millionths.
#[derive(Clone, Copy, Debug, PartialEq, Eq, Structural)]
pub struct ActiveRipple {
    pub x: i64,
    pub y: i64,
    pub progress: i64,
}

/// The ripples of all clicks `c` with `0 ≤ t − c.t < duration`, in log order.
pub open spec fn active_ripples(s: Seq<CursorEvent>, t: int, duration: int) -> Seq<ActiveRipple>
    decreases s.len(),
{
    if s.len() == 0 {
        Seq::empty()
    } else {
        let r = active_ripples(s.drop_last(), t, duration);
        let e = s.last();
        if is_click(e) && 0 <= t - e.timestamp < duration {
            r.push(
                ActiveRipple {
                    x: e.x,
                    y: e.y,
                    progress: ((t - e.timestamp) * UNIT / duration) as i64,
                },
            )
        } else {
            r
        }
    }
}

/// The ripples active at `t`; every click counts, debounced or not.
pub fn get_active_ripples(timestamp: i64, cursor_events: &Vec<CursorEvent>, config: &ClickHighlightConfig) -> (r: Vec<ActiveRipple>)
    requires
        events_ok(cursor_events@),
        config.wf(),
        time_ok(timestamp as int),
    ensures
        r@ == active_ripples(cursor_events@, timestamp as int, config.duration as int),
        forall|i: int| 0 <= i < r.len() ==> 0 <= #[trigger] r@[i].progress < UNIT,
{
    let mut out: Vec<ActiveRipple> = Vec::new();
    let mut i: usize = 0;
    while i < cursor_events.len()
        invariant
            i <= cursor_events.len(),
            events_ok(cursor_events@),
            config.wf(),
            time_ok(timestamp as int),
            out@ == active_ripples(cursor_events@.take(i as int), timestamp as int, config.duration as int),
            forall|j: int| 0 <= j < out.len() ==> 0 <= #[trigger] out@[j].progress < UNIT,
        decreases cursor_events.len() - i,
    {
        assert(cursor_events@.take(i + 1).drop_last() =~= cursor_events@.take(i as int));
        let e = cursor_events[i];
        proof {
            assert(event_ok(cursor_events@[i as int]));
        }
        let elapsed = timestamp - e.timestamp;
        if event_is_click(&e) && 0 <= elapsed && elapsed < config.duration {
            proof {
                assert(0 <= elapsed * UNIT < config.duration * UNIT) by (nonlinear_arith)
                    requires
                        0 <= elapsed < config.duration,
                ;
                vstd::arithmetic::div_mod::lemma_div_pos_is_pos(elapsed * UNIT, config.duration as int);
                let nn = elapsed * UNIT;
                let d = config.duration as int;
                vstd::arithmetic::div_mod::lemma_fundamental_div_mod(nn, d);
                vstd::arithmetic::div_mod::lemma_mod_bound(nn, d);
                assert(nn / d < UNIT) by (nonlinear_arith)
                    requires
                        nn == d * (nn / d) + nn % d,
                        0 <= nn % d,
                        nn < d * UNIT,
                        d > 0,
                ;
            }
            let ghost before = out@;
            out.push(ActiveRipple { x: e.x, y: e.y, progress: elapsed * UNIT / config.duration });
            assert forall|j: int| 0 <= j < out.len() implies 0 <= #[trigger] out@[j].progress < UNIT by {
                if j < before.len() {
                    assert(out@[j] == before[j]);
                }
            }
        }
        i = i + 1;
    }
    assert(cursor_events@.take(i as int) =~= cursor_events@);
    out
}

/// Canvas pixel `(px, py)` after one anti-aliased ring of radii
/// `[inner, outer]` (thousandths of a pixel) about `(cx, cy)`, drawn with
/// `color` at `opacity` (millionths). Only pixels within one pixel of the
/// ring's bounding box are touched.
pub open spec fn ring_pixel(
    bg: Rgba,
    px: int,
    py: int,
    cx: int,
    cy: int,
    inner: int,
    outer: int,
    opacity: int,
    color: Rgba,
) -> Rgba {
    let dx = px * SUBUNITS - cx;
    let dy = py * SUBUNITS - cy;
    let reach = outer + SUBUNITS;
    if -reach <= dx <= reach && -reach <= dy <= reach {
        let dist = sqrt_floor(dx * dx + dy * dy);
        if inner <= dist <= outer {
            let edge = if dist < inner + SUBUNITS {
                dist - inner
            } else if dist > outer - SUBUNITS {
                outer - dist
            } else {
                SUBUNITS as int
            };
            let alpha = edge * opacity * color.a / (SUBUNITS * UNIT) as int;
            if alpha > 0 {
                blend_pixel_spec(bg, color, alpha)
            } else {
                bg
            }
        } else {
            bg
        }
    } else {
        bg
    }
}

/// Draw one ring with radii `[inner, outer]` onto `canvas`.
pub fn draw_ring_pixels(
    canvas: &mut Frame,
    center_x: i64,
    center_y: i64,
    inner_radius: i64,
    outer_radius: i64,
    opacity: i64,
    color: Rgba,
)
    requires
        old(canvas).wf(),
        0 <= inner_radius <= outer_radius <= 3 * MAX_RING_SIZE,
        0 <= opacity <= UNIT,
        -MAX_CANVAS_COORD <= center_x <= MAX_CANVAS_COORD,
        -MAX_CANVAS_COORD <= center_y <= MAX_CANVAS_COORD,
    ensures
        final(canvas).wf(),
        final(canvas).width == old(canvas).width,
        final(canvas).height == old(canvas).height,
        outer_radius < SUBUNITS ==> final(canvas).pixels@ == old(canvas).pixels@,
        outer_radius >= SUBUNITS ==> final(canvas).pixels@ == Seq::new(
            old(canvas).pixels@.len(),
            |q: int|
                ring_pixel(
                    old(canvas).pixels@[q],
                    q % (old(canvas).width as int),
                    q / (old(canvas).width as int),
                    center_x as int,
                    center_y as int,
                    inner_radius as int,
                    outer_radius as int,
                    opacity as int,
                    color,
                ),
        ),
{
    if outer_radius < SUBUNITS {
        return;
    }
    let ghost before = canvas.pixels@;
    let w = canvas.width;
    let h = canvas.height;
    let reach = outer_radius + SUBUNITS;
    let n = canvas.pixels.len();
    let mut p: usize = 0;
    while p < n
        invariant
            canvas.wf(),
            canvas.width == w,
            canvas.height == h,
            w == old(canvas).width,
            h == old(canvas).height,
            before == old(canvas).pixels@,
            n == canvas.pixels.len(),
            n == before.len(),
            p <= n,
            reach == outer_radius + SUBUNITS,
            0 <= inner_radius <= outer_radius <= 3 * MAX_RING_SIZE,
            0 <= opacity <= UNIT,
            -MAX_CANVAS_COORD <= center_x <= MAX_CANVAS_COORD,
            -MAX_CANVAS_COORD <= center_y <= MAX_CANVAS_COORD,
            forall|q: int|
                0 <= q < p ==> #[trigger] canvas.pixels@[q] == ring_pixel(
                    before[q],
                    q % (w as int),
                    q / (w as int),
                    center_x as int,
                    center_y as int,
                    inner_radius as int,
                    outer_radius as int,
                    opacity as int,
                    color,
                ),
            forall|q: int| p <= q < n ==> #[trigger] canvas.pixels@[q] == before[q],
        decreases n - p,
    {
        proof {
            if w == 0 {
                assert(w * h == 0);
            }
            lemma_coords_of_index(p as int, w as int, h as int);
        }
        let px = (p % (w as usize)) as i64;
        let py = (p / (w as usize)) as i64;
        let dx = px * SUBUNITS - center_x;
        let dy = py * SUBUNITS - center_y;
        if -reach <= dx && dx <= reach && -reach <= dy && dy <= reach {
            proof {
                assert(0 <= dx * dx <= 31_000_000 * 31_000_000) by (nonlinear_arith)
                    requires
                        -31_000_000 <= dx <= 31_000_000,
                ;
                assert(0 <= dy * dy <= 31_000_000 * 31_000_000) by (nonlinear_arith)
                    requires
                        -31_000_000 <= dy <= 31_000_000,
                ;
            }
            let root = isqrt((dx * dx + dy * dy) as u128);
            proof {
                assert(root < 50_000_000) by (nonlinear_arith)
                    requires
                        root * root <= 2 * (31_000_000int * 31_000_000),
                        root >= 0,
                ;
            }
            let dist = root as i64;
            if inner_radius <= dist && dist <= outer_radius {
                let edge: i64 = if dist < inner_radius + SUBUNITS {
                    dist - inner_radius
                } else if dist > outer_radius - SUBUNITS {
                    outer_radius - dist
                } else {
                    SUBUNITS
                };
                proof {
                    assert(0 <= edge * opacity <= SUBUNITS * UNIT) by (nonlinear_arith)
                        requires
                            0 <= edge <= SUBUNITS,
                            0 <= opacity <= UNIT,
                    ;
                    assert(0 <= edge * opacity * color.a <= SUBUNITS * UNIT * 255) by (nonlinear_arith)
                        requires
                            0 <= edge * opacity <= SUBUNITS * UNIT,
                            0 <= color.a <= 255,
                    ;
                    vstd::arithmetic::div_mod::lemma_div_is_ordered(
                        edge * opacity * color.a,
                        SUBUNITS * UNIT * 255,
                        SUBUNITS * UNIT,
                    );
                    vstd::arithmetic::div_mod::lemma_div_by_multiple(255, SUBUNITS * UNIT);
                    assert(255 * (SUBUNITS * UNIT) == SUBUNITS * UNIT * 255);
                }
                let alpha = edge * opacity * (color.a as i64) / (SUBUNITS * UNIT);
                if alpha > 0 {
                    let bg = canvas.pixels[p];
                    canvas.pixels.set(p, blend_pixel(bg, color, alpha as u8));
                }
            }
        }
        p = p + 1;
    }
    proof {
        assert(canvas.pixels@ =~= Seq::new(
            before.len(),
            |q: int|
                ring_pixel(
                    before[q],
                    q % (w as int),
                    q / (w as int),
                    center_x as int,
                    center_y as int,
                    inner_radius as int,
                    outer_radius as int,
                    opacity as int,
                    color,
                ),
        ));
    }
}

/// Canvas pixels after one ring; a ring whose outer radius is under a pixel
/// leaves them as they are.
pub open spec fn ring_layer(
    s: Seq<Rgba>,
    w: int,
    cx: int,
    cy: int,
    inner: int,
    outer: int,
    opacity: int,
    color: Rgba,
) -> Seq<Rgba> {
    if outer < SUBUNITS {
        s
    } else {
        Seq::new(
            s.len(),
            |q: int| ring_pixel(s[q], q % w, q / w, cx, cy, inner, outer, opacity, color),
        )
    }
}

pub open spec fn ring_shadow_color() -> Rgba {
    Rgba { r: 0, g: 0, b: 0, a: 150 }
}

/// Canvas pixels after the ripple `rp`: a dark shadow ring three pixels
/// wider, then the ring itself; skipped while the radius is under a pixel or
/// the opacity under 0.01.
pub open spec fn ripple_layer(s: Seq<Rgba>, w: int, rp: ActiveRipple, c: ClickHighlightConfig) -> Seq<Rgba> {
    let eased = ease_out_spec(rp.progress as int);
    let radius = c.max_radius * eased / UNIT as int;
    let opacity = UNIT - eased;
    if radius < SUBUNITS || opacity < 10_000 {
        s
    } else {
        let sw = c.ring_width + 3 * SUBUNITS;
        let s_in = if radius - sw / 2 > 0 {
            radius - sw / 2
        } else {
            0
        };
        let m_in = if radius - c.ring_width / 2 > 0 {
            radius - c.ring_width / 2
        } else {
            0
        };
        let shadowed = ring_layer(
            s,
            w,
            rp.x as int,
            rp.y as int,
            s_in,
            radius + sw / 2,
            opacity * 6 / 10,
            ring_shadow_color(),
        );
        ring_layer(
            shadowed,
            w,
            rp.x as int,
            rp.y as int,
            m_in,
            radius + c.ring_width / 2,
            opacity,
            c.color,
        )
    }
}

/// Canvas pixels after all of `ripples`, in order.
pub open spec fn ripples_layer(
    s: Seq<Rgba>,
    w: int,
    ripples: Seq<ActiveRipple>,
    c: ClickHighlightConfig,
) -> Seq<Rgba>
    decreases ripples.len(),
{
    if ripples.len() == 0 {
        s
    } else {
        ripple_layer(ripples_layer(s, w, ripples.drop_last(), c), w, ripples.last(), c)
    }
}

pub open spec fn ripple_ok(rp: ActiveRipple) -> bool {
    &&& 0 <= rp.progress <= UNIT
    &&& -MAX_CANVAS_COORD <= rp.x <= MAX_CANVAS_COORD
    &&& -MAX_CANVAS_COORD <= rp.y <= MAX_CANVAS_COORD
}

/// Draw one ripple: the shadow ring, then the ring.
fn draw_ring(canvas: &mut Frame, ripple: &ActiveRipple, config: &ClickHighlightConfig)
    requires
        old(canvas).wf(),
        ripple_ok(*ripple),
        config.wf(),
    ensures
        final(canvas).wf(),
        final(canvas).width == old(canvas).width,
        final(canvas).height == old(canvas).height,
        final(canvas).pixels@ == ripple_layer(
            old(canvas).pixels@,
            old(canvas).width as int,
            *ripple,
            *config,
        ),
{
    let eased = ease_out_cubic(ripple.progress);
    proof {
        assert(0 <= config.max_radius * eased <= MAX_RING_SIZE * UNIT) by (nonlinear_arith)
            requires
                0 <= config.max_radius <= MAX_RING_SIZE,
                0 <= eased <= UNIT,
        ;
        vstd::arithmetic::div_mod::lemma_div_is_ordered(config.max_radius * eased, MAX_RING_SIZE * UNIT, UNIT as int);
        vstd::arithmetic::div_mod::lemma_div_by_multiple(MAX_RING_SIZE as int, UNIT as int);
        vstd::arithmetic::div_mod::lemma_div_pos_is_pos(config.max_radius * eased, UNIT as int);
    }
    let radius = config.max_radius * eased / UNIT;
    let opacity = UNIT - eased;
    if radius < SUBUNITS || opacity < 10_000 {
        return;
    }
    let sw = config.ring_width + 3 * SUBUNITS;
    let s_in = if radius - sw / 2 > 0 {
        radius - sw / 2
    } else {
        0
    };
    let m_in = if radius - config.ring_width / 2 > 0 {
        radius - config.ring_width / 2
    } else {
        0
    };
    draw_ring_pixels(
        canvas,
        ripple.x,
        ripple.y,
        s_in,
        radius + sw / 2,
        opacity * 6 / 10,
        Rgba { r: 0, g: 0, b: 0, a: 150 },
    );
    draw_ring_pixels(
        canvas,
        ripple.x,
        ripple.y,
        m_in,
        radius + config.ring_width / 2,
        opacity,
        config.color,
    );
}

/// Draw all `ripples` (centres in canvas thousandths of a pixel) onto
/// `canvas`, unless highlighting is disabled.
pub fn draw_click_highlights(canvas: &mut Frame, ripples: &Vec<ActiveRipple>, config: &ClickHighlightConfig)
    requires
        old(canvas).wf(),
        config.wf(),
        forall|i: int| 0 <= i < ripples.len() ==> #[trigger] ripple_ok(ripples@[i]),
    ensures
        final(canvas).wf(),
        final(canvas).width == old(canvas).width,
        final(canvas).height == old(canvas).height,
        !config.enabled ==> final(canvas).pixels@ == old(canvas).pixels@,
        config.enabled ==> final(canvas).pixels@ == ripples_layer(
            old(canvas).pixels@,
            old(canvas).width as int,
            ripples@,
            *config,
        ),
{
    if !config.enabled {
        return;
    }
    let ghost before = canvas.pixels@;
    let mut i: usize = 0;
    while i < ripples.len()
        invariant
            i <= ripples.len(),
            canvas.wf(),
            canvas.width == old(canvas).width,
            canvas.height == old(canvas).height,
            before == old(canvas).pixels@,
            config.wf(),
            forall|j: int| 0 <= j < ripples.len() ==> #[trigger] ripple_ok(ripples@[j]),
            canvas.pixels@ == ripples_layer(before, canvas.width as int, ripples@.take(i as int), *config),
        decreases ripples.len() - i,
    {
        assert(ripples@.take(i + 1).drop_last() =~= ripples@.take(i as int));
        assert(ripple_ok(ripples@[i as int]));
        draw_ring(canvas, &ripples[i], config);
        i = i + 1;
    }
    assert(ripples@.take(i as int) =~= ripples@);
}

pub proof fn lemma_ripples_in_range(s: Seq<CursorEvent>, t: int, duration: int)
    requires
        events_ok(s),
        0 < duration,
    ensures
        forall|i: int|
            0 <= i < active_ripples(s, t, duration).len() ==> -crate::events::MAX_COORD
                <= #[trigger] active_ripples(s, t, duration)[i].x <= crate::events::MAX_COORD
                && -crate::events::MAX_COORD <= active_ripples(s, t, duration)[i].y
                <= crate::events::MAX_COORD && 0 <= active_ripples(s, t, duration)[i].progress
                <= UNIT,
    decreases s.len(),
{
    if s.len() > 0 {
        lemma_ripples_in_range(s.drop_last(), t, duration);
        assert(event_ok(s[s.len() - 1]));
        let e = s.last();
        let r = active_ripples(s.drop_last(), t, duration);
        if is_click(e) && 0 <= t - e.timestamp < duration {
            let nn = (t - e.timestamp) * UNIT;
            assert(0 <= nn < duration * UNIT) by (nonlinear_arith)
                requires
                    nn == (t - e.timestamp) * UNIT,
                    0 <= t - e.timestamp < duration,
            ;
            vstd::arithmetic::div_mod::lemma_fundamental_div_mod(nn, duration);
            vstd::arithmetic::div_mod::lemma_mod_bound(nn, duration);
            vstd::arithmetic::div_mod::lemma_div_pos_is_pos(nn, duration);
            assert(nn / duration < UNIT) by (nonlinear_arith)
                requires
                    nn == duration * (nn / duration) + nn % duration,
                    0 <= nn % duration,
                    nn < duration * UNIT,
                    duration > 0,
            ;
            let pushed = r.push(
                ActiveRipple { x: e.x, y: e.y, progress: (nn / duration) as i64 },
            );
            assert forall|i: int| 0 <= i < pushed.len() implies -crate::events::MAX_COORD
                <= #[trigger] pushed[i].x <= crate::events::MAX_COORD && -crate::events::MAX_COORD
                <= pushed[i].y <= crate::events::MAX_COORD && 0 <= pushed[i].progress <= UNIT by {
                if i < r.len() {
                    assert(pushed[i] == r[i]);
                }
            }
        }
    }
}

} // verus!
