//! Pointer events and the recording's event log.
use vstd::prelude::*;

verus! {

/// Largest magnitude of a timestamp, in microseconds (about eleven days).
pub const MAX_TIME: i64 = 1_000_000_000_000;

/// Largest magnitude of an event-space coordinate, in thousandths of a point.
pub const MAX_COORD: i64 = 1_000_000_000;

/// Kind of a pointer event.
#[derive(Clone, Copy, Debug, PartialEq, Eq, Structural)]
pub enum EventType {
    Move,
    LeftClick,
    RightClick,
}

/// One pointer event: position in thousandths of a screen point, time in
/// microseconds.
#[derive(Clone, Copy, Debug, PartialEq, Eq, Structural)]
pub struct CursorEvent {
    pub x: i64,
    pub y: i64,
    pub timestamp: i64,
    pub event_type: EventType,
}

/// Where a recording came from.
#[derive(Clone, Copy, Debug, PartialEq, Eq, Structural)]
pub enum SourceType {
    Display,
    Window,
}

pub open spec fn is_click(e: CursorEvent) -> bool {
    e.event_type == EventType::LeftClick || e.event_type == EventType::RightClick
}

/// Coordinates and timestamp lie within the representable ranges.
pub open spec fn event_ok(e: CursorEvent) -> bool {
    -MAX_COORD <= e.x <= MAX_COORD && -MAX_COORD <= e.y <= MAX_COORD && -MAX_TIME <= e.timestamp
        <= MAX_TIME
}

pub open spec fn events_ok(s: Seq<CursorEvent>) -> bool {
    forall|i: int| 0 <= i < s.len() ==> #[trigger] event_ok(s[i])
}

/// The latest event of `s` (in sequence order) whose timestamp is at most `t`.
pub open spec fn last_at_or_before(s: Seq<CursorEvent>, t: int) -> Option<CursorEvent>
    decreases s.len(),
{
    if s.len() == 0 {
        None
    } else if s.last().timestamp <= t {
        Some(s.last())
    } else {
        last_at_or_before(s.drop_last(), t)
    }
}

/// The first event of `s` (in sequence order) whose timestamp exceeds `t`.
pub open spec fn first_after(s: Seq<CursorEvent>, t: int) -> Option<CursorEvent>
    decreases s.len(),
{
    if s.len() == 0 {
        None
    } else {
        match first_after(s.drop_last(), t) {
            Some(e) => Some(e),
            None => if s.last().timestamp > t {
                Some(s.last())
            } else {
                None
            },
        }
    }
}

pub proof fn lemma_found_events_ok(s: Seq<CursorEvent>, t: int)
    requires
        events_ok(s),
    ensures
        last_at_or_before(s, t) matches Some(e) ==> event_ok(e) && e.timestamp <= t,
        first_after(s, t) matches Some(e) ==> event_ok(e) && e.timestamp > t,
    decreases s.len(),
{
    if s.len() > 0 {
        assert(event_ok(s[s.len() - 1]));
        lemma_found_events_ok(s.drop_last(), t);
    }
}

/// Whether an event is a left or right click.
pub fn event_is_click(e: &CursorEvent) -> (r: bool)
    ensures
        r == is_click(*e),
{
    match e.event_type {
        EventType::Move => false,
        _ => true,
    }
}

/// The latest event (any kind) at or before `t`, as a position; the origin
/// when there is none.
pub fn position_at(events: &Vec<CursorEvent>, t: i64) -> (r: (i64, i64))
    ensures
        r == (match last_at_or_before(events@, t as int) {
            Some(e) => (e.x, e.y),
            None => (0i64, 0i64),
        }),
{
    match latest_at_or_before(events, t) {
        Some(e) => (e.x, e.y),
        None => (0, 0),
    }
}

/// The latest event at or before `t`.
pub fn latest_at_or_before(events: &Vec<CursorEvent>, t: i64) -> (r: Option<CursorEvent>)
    ensures
        r == last_at_or_before(events@, t as int),
{
    let mut found: Option<CursorEvent> = None;
    let mut i: usize = 0;
    while i < events.len()
        invariant
            i <= events.len(),
            found == last_at_or_before(events@.take(i as int), t as int),
        decreases events.len() - i,
    {
        assert(events@.take(i + 1).drop_last() =~= events@.take(i as int));
        if events[i].timestamp <= t {
            found = Some(events[i]);
        }
        i = i + 1;
    }
    assert(events@.take(i as int) =~= events@);
    found
}

/// The earliest event after `t`.
pub fn earliest_after(events: &Vec<CursorEvent>, t: i64) -> (r: Option<CursorEvent>)
    ensures
        r == first_after(events@, t as int),
{
    let mut found: Option<CursorEvent> = None;
    let mut i: usize = 0;
    while i < events.len()
        invariant
            i <= events.len(),
            found == first_after(events@.take(i as int), t as int),
        decreases events.len() - i,
    {
        assert(events@.take(i + 1).drop_last() =~= events@.take(i as int));
        if found.is_none() && events[i].timestamp > t {
            found = Some(events[i]);
        }
        i = i + 1;
    }
    assert(events@.take(i as int) =~= events@);
    found
}

} // verus!
