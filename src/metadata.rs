//! The recording's metadata: where it came from, its size and scale, its
//! timing fields and its pointer events.
use vstd::prelude::*;
use crate::effects::MAX_SCALE_FACTOR;
use crate::events::{CursorEvent, SourceType, events_ok, MAX_TIME};
use crate::fixed::SUBUNITS;
use crate::frame::MAX_DIM;

verus! {

/// Metadata recorded beside a video. The scale factor (pixels per point) is
/// in thousandths; timing fields are in microseconds, 0 when unknown.
pub struct RecordingMetadata {
    pub source_type: SourceType,
    pub source_index: usize,
    pub width: u32,
    pub height: u32,
    pub scale_factor: i64,
    pub window_offset: (i32, i32),
    pub cursor_tracking_duration: i64,
    pub cursor_to_video_offset: i64,
    pub cursor_events: Vec<CursorEvent>,
}

impl RecordingMetadata {
    pub open spec fn wf(&self) -> bool {
        &&& events_ok(self.cursor_events@)
        &&& 0 < self.width <= MAX_DIM
        &&& 0 < self.height <= MAX_DIM
        &&& SUBUNITS <= self.scale_factor <= MAX_SCALE_FACTOR
        &&& -MAX_TIME <= self.cursor_tracking_duration <= MAX_TIME
        &&& -MAX_TIME <= self.cursor_to_video_offset <= MAX_TIME
    }

    /// Metadata for a display recording, with no events yet.
    pub fn new_display(index: usize, width: u32, height: u32) -> (r: Self)
        ensures
            r.source_type == SourceType::Display,
            r.source_index == index,
            r.width == width,
            r.height == height,
            r.scale_factor == SUBUNITS,
            r.window_offset == (0i32, 0i32),
            r.cursor_tracking_duration == 0,
            r.cursor_to_video_offset == 0,
            r.cursor_events@.len() == 0,
    {
        RecordingMetadata {
            source_type: SourceType::Display,
            source_index: index,
            width,
            height,
            scale_factor: SUBUNITS,
            window_offset: (0, 0),
            cursor_tracking_duration: 0,
            cursor_to_video_offset: 0,
            cursor_events: Vec::new(),
        }
    }

    /// Metadata for a window recording at the given offset, with no events yet.
    pub fn new_window(window_id: u32, width: u32, height: u32, offset_x: i32, offset_y: i32) -> (r: Self)
        ensures
            r.source_type == SourceType::Window,
            r.source_index == window_id as usize,
            r.width == width,
            r.height == height,
            r.scale_factor == SUBUNITS,
            r.window_offset == (offset_x, offset_y),
            r.cursor_tracking_duration == 0,
            r.cursor_to_video_offset == 0,
            r.cursor_events@.len() == 0,
    {
        RecordingMetadata {
            source_type: SourceType::Window,
            source_index: window_id as usize,
            width,
            height,
            scale_factor: SUBUNITS,
            window_offset: (offset_x, offset_y),
            cursor_tracking_duration: 0,
            cursor_to_video_offset: 0,
            cursor_events: Vec::new(),
        }
    }
}

} // verus!
