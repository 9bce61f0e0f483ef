//! The zoom/pan trajectory planner: a pure function of the event log and a
//! timestamp giving the zoom factor and the focus point.
use vstd::prelude::*;
use crate::events::{CursorEvent, event_ok, events_ok, is_click, last_at_or_before, first_after, event_is_click, MAX_TIME, MAX_COORD, lemma_found_events_ok, latest_at_or_before, earliest_after, position_at};
use crate::fixed::{ease_in_cubic, ease_out_cubic, ease_in_out_cubic, lerp, UNIT, ease_in_spec, ease_out_spec, ease_in_out_spec, lerp_spec};

verus! {

/// Largest zoom factor, in millionths (100×).
pub const MAX_ZOOM: i64 = 100_000_000;

/// Largest configurable duration, in microseconds.
pub const MAX_DURATION: i64 = 1_000_000_000_000;

/// Zoom timing; zoom in millionths, durations in microseconds.
#[derive(Clone, Copy, Debug)]
pub struct ZoomConfig {
    /// Zoom factor at the peak.
    pub max_zoom: i64,
    /// Lead time of the anticipatory zoom-in before a click.
    pub ease_in: i64,
    /// Time held at the peak after a click.
    pub hold: i64,
    /// Duration of the return to 1.0.
    pub ease_out: i64,
    /// Minimum gap between two kept clicks.
    pub debounce: i64,
}

impl ZoomConfig {
    pub open spec fn wf(&self) -> bool {
        &&& UNIT <= self.max_zoom <= MAX_ZOOM
        &&& 0 < self.ease_in <= MAX_DURATION
        &&& 0 <= self.hold <= MAX_DURATION
        &&& 0 < self.ease_out <= MAX_DURATION
        &&& 0 <= self.debounce <= MAX_DURATION
    }

    pub open spec fn pan_window(&self) -> int {
        self.hold + self.ease_out + self.ease_in
    }

    /// Total length of one zoom: ease-in, hold and ease-out.
    pub fn total_duration(&self) -> (r: i64)
        requires
            self.wf(),
        ensures
            r == self.pan_window(),
    {
        self.ease_in + self.hold + self.ease_out
    }
}

impl Default for ZoomConfig {
    fn default() -> (r: Self)
        ensures
            r.max_zoom == 1_500_000,
            r.ease_in == 600_000,
            r.hold == 4_000_000,
            r.ease_out == 800_000,
            r.debounce == 500_000,
            r.wf(),
    {
        ZoomConfig {
            max_zoom: 1_500_000,
            ease_in: 600_000,
            hold: 4_000_000,
            ease_out: 800_000,
            debounce: 500_000,
        }
    }
}

/// Timestamps of queries may lie up to twice as far from zero as events.
pub open spec fn time_ok(t: int) -> bool {
    -2 * MAX_TIME <= t <= 2 * MAX_TIME
}

/// The clicks kept by debouncing: a click is kept when no click was kept
/// before it, or when it comes more than `debounce` after the last kept one.
pub open spec fn debounced(s: Seq<CursorEvent>, debounce: int) -> Seq<CursorEvent>
    decreases s.len(),
{
    if s.len() == 0 {
        Seq::empty()
    } else {
        let kept = debounced(s.drop_last(), debounce);
        let e = s.last();
        if is_click(e) && (kept.len() == 0 || e.timestamp - kept.last().timestamp > debounce) {
            kept.push(e)
        } else {
            kept
        }
    }
}

/// All clicks, each more than `debounce` after the one before it.
pub open spec fn spaced(s: Seq<CursorEvent>, debounce: int) -> bool {
    &&& forall|i: int| 0 <= i < s.len() ==> #[trigger] is_click(s[i])
    &&& forall|i: int|
        0 < i < s.len() ==> #[trigger] s[i].timestamp - s[i - 1].timestamp > debounce
}

pub open spec fn clamp_spec(v: int, lo: int, hi: int) -> int {
    if v < lo {
        lo
    } else if v > hi {
        hi
    } else {
        v
    }
}

/// `(zoom, focus_x, focus_y)` at time `t`.
pub open spec fn trajectory(events: Seq<CursorEvent>, c: ZoomConfig, t: int) -> (int, int, int) {
    let eff = debounced(events, c.debounce as int);
    let prev = last_at_or_before(eff, t);
    let next = first_after(eff, t);
    let idle = match last_at_or_before(events, t) {
        Some(e) => (UNIT as int, e.x as int, e.y as int),
        None => (UNIT as int, 0int, 0int),
    };
    let max_zoom = c.max_zoom as int;
    if next is Some && 0 < next->0.timestamp - t <= c.ease_in {
        let n = next->0;
        let p = UNIT - (n.timestamp - t) * UNIT / (c.ease_in as int);
        let zoom = UNIT + (max_zoom - UNIT) * ease_out_spec(p) / (UNIT as int);
        if prev is Some && n.timestamp - prev->0.timestamp <= c.pan_window() {
            let e = ease_in_out_spec(p);
            (
                if zoom > max_zoom {
                    zoom
                } else {
                    max_zoom
                },
                lerp_spec(prev->0.x as int, n.x as int, e),
                lerp_spec(prev->0.y as int, n.y as int, e),
            )
        } else {
            (zoom, n.x as int, n.y as int)
        }
    } else if prev is Some {
        let pr = prev->0;
        let elapsed = t - pr.timestamp;
        if next is Some && next->0.timestamp - pr.timestamp <= c.pan_window() {
            let n = next->0;
            let pan_start = if pr.timestamp + c.hold < n.timestamp - c.ease_in {
                pr.timestamp + c.hold
            } else {
                n.timestamp - c.ease_in
            };
            if t < pan_start {
                (max_zoom, pr.x as int, pr.y as int)
            } else {
                let pp = clamp_spec(
                    (t - pan_start) * UNIT / (n.timestamp - pan_start),
                    0,
                    UNIT as int,
                );
                let e = ease_in_out_spec(pp);
                (max_zoom, lerp_spec(pr.x as int, n.x as int, e), lerp_spec(pr.y as int, n.y as int, e))
            }
        } else if elapsed <= c.hold {
            (max_zoom, pr.x as int, pr.y as int)
        } else if elapsed <= c.hold + c.ease_out {
            let q = (elapsed - c.hold) * UNIT / (c.ease_out as int);
            (max_zoom - (max_zoom - UNIT) * ease_in_spec(q) / (UNIT as int), pr.x as int, pr.y as int)
        } else {
            idle
        }
    } else {
        idle
    }
}

pub proof fn lemma_debounced_ok(s: Seq<CursorEvent>, d: int)
    requires
        events_ok(s),
    ensures
        events_ok(debounced(s, d)),
    decreases s.len(),
{
    if s.len() > 0 {
        lemma_debounced_ok(s.drop_last(), d);
        assert(event_ok(s[s.len() - 1]));
        let kept = debounced(s.drop_last(), d);
        assert forall|i: int| 0 <= i < kept.push(s.last()).len() implies #[trigger] event_ok(
            kept.push(s.last())[i],
        ) by {
            if i < kept.len() {
                assert(event_ok(kept[i]));
            }
        }
    }
}

pub proof fn lemma_debounced_spaced(s: Seq<CursorEvent>, d: int)
    ensures
        spaced(debounced(s, d), d),
    decreases s.len(),
{
    if s.len() > 0 {
        lemma_debounced_spaced(s.drop_last(), d);
        let kept = debounced(s.drop_last(), d);
        let e = s.last();
        if is_click(e) && (kept.len() == 0 || e.timestamp - kept.last().timestamp > d) {
            let pushed = kept.push(e);
            assert forall|i: int| 0 <= i < pushed.len() implies #[trigger] is_click(pushed[i]) by {
                if i < kept.len() {
                    assert(is_click(kept[i]));
                }
            }
            assert forall|i: int| 0 < i < pushed.len() implies #[trigger] pushed[i].timestamp
                - pushed[i - 1].timestamp > d by {
                if i < kept.len() {
                    assert(kept[i].timestamp - kept[i - 1].timestamp > d);
                }
            }
        }
    }
}

pub proof fn lemma_spaced_fixed(s: Seq<CursorEvent>, d: int)
    requires
        spaced(s, d),
    ensures
        debounced(s, d) == s,
    decreases s.len(),
{
    if s.len() > 0 {
        let init = s.drop_last();
        assert(spaced(init, d)) by {
            assert forall|i: int| 0 < i < init.len() implies #[trigger] init[i].timestamp
                - init[i - 1].timestamp > d by {
                assert(s[i].timestamp - s[i - 1].timestamp > d);
            }
            assert forall|i: int| 0 <= i < init.len() implies #[trigger] is_click(init[i]) by {
                assert(is_click(s[i]));
            }
        }
        lemma_spaced_fixed(init, d);
        assert(is_click(s[s.len() - 1]));
        if s.len() > 1 {
            assert(s[s.len() - 1].timestamp - s[s.len() - 2].timestamp > d);
        }
        assert(init.push(s.last()) =~= s);
    }
}

/// Debouncing the kept clicks again keeps all of them.
pub proof fn lemma_debounce_idempotent(events: Seq<CursorEvent>, debounce: int)
    ensures
        debounced(debounced(events, debounce), debounce) == debounced(events, debounce),
{
    lemma_debounced_spaced(events, debounce);
    lemma_spaced_fixed(debounced(events, debounce), debounce);
}

/// The clicks kept by debouncing, in log order.
pub fn get_effective_clicks(events: &Vec<CursorEvent>, config: &ZoomConfig) -> (r: Vec<CursorEvent>)
    requires
        events_ok(events@),
        config.wf(),
    ensures
        r@ == debounced(events@, config.debounce as int),
{
    let mut kept: Vec<CursorEvent> = Vec::new();
    let mut i: usize = 0;
    while i < events.len()
        invariant
            i <= events.len(),
            events_ok(events@),
            config.wf(),
            kept@ == debounced(events@.take(i as int), config.debounce as int),
        decreases events.len() - i,
    {
        assert(events@.take(i + 1).drop_last() =~= events@.take(i as int));
        assert(events@.take(i + 1).last() == events@[i as int]);
        let e = events[i];
        proof {
            assert(event_ok(events@[i as int]));
            lemma_debounced_ok(events@.take(i as int), config.debounce as int);
            if kept.len() > 0 {
                assert(event_ok(kept@[kept.len() - 1]));
            }
        }
        if event_is_click(&e) {
            if kept.len() == 0 {
                kept.push(e);
            } else if e.timestamp - kept[kept.len() - 1].timestamp > config.debounce {
                kept.push(e);
            }
        }
        i = i + 1;
    }
    assert(events@.take(i as int) =~= events@);
    kept
}

/// Zoom factor and focus point at time `t`: anticipatory zoom-in before a
/// click, hold after it, pan between nearby clicks, then ease-out.
pub fn calculate_zoom(timestamp: i64, cursor_events: &Vec<CursorEvent>, config: &ZoomConfig) -> (r: (
    i64,
    i64,
    i64,
))
    requires
        events_ok(cursor_events@),
        config.wf(),
        time_ok(timestamp as int),
    ensures
        (r.0 as int, r.1 as int, r.2 as int) == trajectory(cursor_events@, *config, timestamp as int),
        UNIT <= r.0 <= config.max_zoom,
        -MAX_COORD <= r.1 <= MAX_COORD,
        -MAX_COORD <= r.2 <= MAX_COORD,
{
    let t = timestamp;
    let eff = get_effective_clicks(cursor_events, config);
    proof {
        lemma_debounced_ok(cursor_events@, config.debounce as int);
        lemma_found_events_ok(eff@, t as int);
        lemma_found_events_ok(cursor_events@, t as int);
    }
    let prev = latest_at_or_before(&eff, t);
    let next = earliest_after(&eff, t);
    let max_zoom = config.max_zoom;
    let pan_window = config.total_duration();
    if let Some(n) = next {
        let time_to_next = n.timestamp - t;
        if time_to_next <= config.ease_in {
            proof {
                assert(0 <= time_to_next * UNIT <= config.ease_in * UNIT) by (nonlinear_arith)
                    requires
                        0 <= time_to_next <= config.ease_in,
                ;
                vstd::arithmetic::div_mod::lemma_div_is_ordered(
                    time_to_next * UNIT,
                    config.ease_in * UNIT,
                    config.ease_in as int,
                );
                vstd::arithmetic::div_mod::lemma_div_by_multiple(UNIT as int, config.ease_in as int);
                vstd::arithmetic::div_mod::lemma_div_pos_is_pos(time_to_next * UNIT, config.ease_in as int);
                assert(config.ease_in * UNIT / (config.ease_in as int) == UNIT) by {
                    vstd::arithmetic::mul::lemma_mul_is_commutative(config.ease_in as int, UNIT as int);
                }
            }
            let p = UNIT - time_to_next * UNIT / config.ease_in;
            let eased = ease_out_cubic(p);
            proof {
                assert(0 <= (max_zoom - UNIT) * eased <= MAX_ZOOM * UNIT) by (nonlinear_arith)
                    requires
                        0 <= max_zoom - UNIT <= MAX_ZOOM,
                        0 <= eased <= UNIT,
                ;
                assert((max_zoom - UNIT) * eased <= (max_zoom - UNIT) * UNIT) by (nonlinear_arith)
                    requires
                        0 <= max_zoom - UNIT,
                        0 <= eased <= UNIT,
                ;
                vstd::arithmetic::div_mod::lemma_div_is_ordered(
                    (max_zoom - UNIT) * eased,
                    (max_zoom - UNIT) * UNIT,
                    UNIT as int,
                );
                vstd::arithmetic::div_mod::lemma_div_by_multiple((max_zoom - UNIT) as int, UNIT as int);
                vstd::arithmetic::div_mod::lemma_div_pos_is_pos((max_zoom - UNIT) * eased, UNIT as int);
            }
            let zoom = UNIT + (max_zoom - UNIT) * eased / UNIT;
            if let Some(pr) = prev {
                if n.timestamp - pr.timestamp <= pan_window {
                    let e = ease_in_out_cubic(p);
                    let x = lerp(pr.x, n.x, e);
                    let y = lerp(pr.y, n.y, e);
                    let z = if zoom > max_zoom {
                        zoom
                    } else {
                        max_zoom
                    };
                    return (z, x, y);
                }
            }
            return (zoom, n.x, n.y);
        }
    }
    if let Some(pr) = prev {
        let elapsed = t - pr.timestamp;
        if let Some(n) = next {
            if n.timestamp - pr.timestamp <= pan_window {
                let pan_start = if pr.timestamp + config.hold < n.timestamp - config.ease_in {
                    pr.timestamp + config.hold
                } else {
                    n.timestamp - config.ease_in
                };
                if t < pan_start {
                    return (max_zoom, pr.x, pr.y);
                }
                let span = n.timestamp - pan_start;
                proof {
                    assert(0 <= (t - pan_start) * UNIT <= span * UNIT) by (nonlinear_arith)
                        requires
                            0 <= t - pan_start <= span,
                    ;
                    assert(span * UNIT <= 2 * MAX_DURATION * UNIT) by (nonlinear_arith)
                        requires
                            0 <= span <= 2 * MAX_DURATION,
                    ;
                }
                let raw = (t - pan_start) * UNIT / span;
                let pp = if raw < 0 {
                    0
                } else if raw > UNIT {
                    UNIT
                } else {
                    raw
                };
                let e = ease_in_out_cubic(pp);
                return (max_zoom, lerp(pr.x, n.x, e), lerp(pr.y, n.y, e));
            }
        }
        if elapsed <= config.hold {
            return (max_zoom, pr.x, pr.y);
        } else if elapsed <= config.hold + config.ease_out {
            let d = elapsed - config.hold;
            proof {
                assert(0 <= d * UNIT <= config.ease_out * UNIT) by (nonlinear_arith)
                    requires
                        0 <= d <= config.ease_out,
                ;
                vstd::arithmetic::div_mod::lemma_div_is_ordered(
                    d * UNIT,
                    config.ease_out * UNIT,
                    config.ease_out as int,
                );
                vstd::arithmetic::div_mod::lemma_div_pos_is_pos(d * UNIT, config.ease_out as int);
                assert(config.ease_out * UNIT / (config.ease_out as int) == UNIT) by {
                    vstd::arithmetic::mul::lemma_mul_is_commutative(config.ease_out as int, UNIT as int);
                    vstd::arithmetic::div_mod::lemma_div_by_multiple(UNIT as int, config.ease_out as int);
                }
            }
            let q = d * UNIT / config.ease_out;
            let eased = ease_in_cubic(q);
            proof {
                assert(0 <= (max_zoom - UNIT) * eased <= MAX_ZOOM * UNIT) by (nonlinear_arith)
                    requires
                        0 <= max_zoom - UNIT <= MAX_ZOOM,
                        0 <= eased <= UNIT,
                ;
                assert((max_zoom - UNIT) * eased <= (max_zoom - UNIT) * UNIT) by (nonlinear_arith)
                    requires
                        0 <= max_zoom - UNIT,
                        0 <= eased <= UNIT,
                ;
                vstd::arithmetic::div_mod::lemma_div_is_ordered(
                    (max_zoom - UNIT) * eased,
                    (max_zoom - UNIT) * UNIT,
                    UNIT as int,
                );
                vstd::arithmetic::div_mod::lemma_div_by_multiple((max_zoom - UNIT) as int, UNIT as int);
                vstd::arithmetic::div_mod::lemma_div_pos_is_pos((max_zoom - UNIT) * eased, UNIT as int);
            }
            return (max_zoom - (max_zoom - UNIT) * eased / UNIT, pr.x, pr.y);
        }
    }
    let (x, y) = position_at(cursor_events, t);
    (UNIT, x, y)
}

/// Timestamps strictly increase along `s`.
pub open spec fn increasing(s: Seq<CursorEvent>) -> bool {
    forall|j: int, k: int| 0 <= j < k < s.len() ==> s[j].timestamp < s[k].timestamp
}

pub proof fn lemma_spaced_increasing(s: Seq<CursorEvent>, d: int)
    requires
        spaced(s, d),
        d >= 0,
    ensures
        increasing(s),
    decreases s.len(),
{
    if s.len() > 1 {
        let init = s.drop_last();
        assert(spaced(init, d)) by {
            assert forall|i: int| 0 < i < init.len() implies #[trigger] init[i].timestamp
                - init[i - 1].timestamp > d by {
                assert(s[i].timestamp - s[i - 1].timestamp > d);
            }
            assert forall|i: int| 0 <= i < init.len() implies #[trigger] is_click(init[i]) by {
                assert(is_click(s[i]));
            }
        }
        lemma_spaced_increasing(init, d);
        let n = s.len() - 1;
        assert(s[n].timestamp - s[n - 1].timestamp > d);
        assert forall|j: int, k: int| 0 <= j < k < s.len() implies s[j].timestamp
            < s[k].timestamp by {
            if k < n {
                assert(init[j].timestamp < init[k].timestamp);
            } else if j < n - 1 {
                assert(init[j].timestamp < init[n - 1].timestamp);
            }
        }
    }
}

/// In a sequence split at `k` into events at or before `t` and events after
/// it, the search functions find the events on either side of the split.
pub proof fn lemma_split_search(s: Seq<CursorEvent>, t: int, k: int)
    requires
        0 <= k <= s.len(),
        forall|j: int| 0 <= j < k ==> #[trigger] s[j].timestamp <= t,
        forall|j: int| k <= j < s.len() ==> #[trigger] s[j].timestamp > t,
    ensures
        last_at_or_before(s, t) == (if k > 0 {
            Some(s[k - 1])
        } else {
            None
        }),
        first_after(s, t) == (if k < s.len() {
            Some(s[k])
        } else {
            None
        }),
    decreases s.len(),
{
    if s.len() > 0 {
        let init = s.drop_last();
        let n = s.len() - 1;
        if k == s.len() {
            assert(s[n].timestamp <= t);
            lemma_split_search(init, t, n);
        } else {
            assert(s[n].timestamp > t);
            lemma_split_search(init, t, k);
        }
    }
}

/// Pan consistency: between two consecutive kept clicks that are at most a
/// pan window apart, the zoom never drops below the peak zoom.
pub proof fn lemma_pan_consistency(events: Seq<CursorEvent>, c: ZoomConfig, i: int, t: int)
    requires
        c.wf(),
        0 <= i,
        i + 1 < debounced(events, c.debounce as int).len(),
        debounced(events, c.debounce as int)[i + 1].timestamp - debounced(
            events,
            c.debounce as int,
        )[i].timestamp <= c.pan_window(),
        debounced(events, c.debounce as int)[i].timestamp <= t,
        t <= debounced(events, c.debounce as int)[i + 1].timestamp,
    ensures
        trajectory(events, c, t).0 >= c.max_zoom,
{
    let eff = debounced(events, c.debounce as int);
    lemma_debounced_spaced(events, c.debounce as int);
    lemma_spaced_increasing(eff, c.debounce as int);
    if t < eff[i + 1].timestamp {
        assert forall|j: int| 0 <= j < i + 1 implies #[trigger] eff[j].timestamp <= t by {
            if j < i {
                assert(eff[j].timestamp < eff[i].timestamp);
            }
        }
        assert forall|j: int| i + 1 <= j < eff.len() implies #[trigger] eff[j].timestamp > t by {
            if j > i + 1 {
                assert(eff[i + 1].timestamp < eff[j].timestamp);
            }
        }
        lemma_split_search(eff, t, i + 1);
    } else {
        assert forall|j: int| 0 <= j < i + 2 implies #[trigger] eff[j].timestamp <= t by {
            if j < i + 1 {
                assert(eff[j].timestamp < eff[i + 1].timestamp);
            }
        }
        assert forall|j: int| i + 2 <= j < eff.len() implies #[trigger] eff[j].timestamp > t by {
            assert(eff[i + 1].timestamp < eff[j].timestamp);
        }
        lemma_split_search(eff, t, i + 2);
    }
}

} // verus!
