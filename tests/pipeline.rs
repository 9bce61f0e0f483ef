use glide::click_highlight::{get_active_ripples, ClickHighlightConfig};
use glide::cursor::CursorConfig;
use glide::effects::{to_canvas, Background, ContentLayout};
use glide::events::{CursorEvent, EventType, SourceType};
use glide::fixed::UNIT;
use glide::frame::{Frame, Rgba};
use glide::metadata::RecordingMetadata;
use glide::motion_blur::MotionBlurConfig;
use glide::pipeline::{
    compose_frame, frame_timestamp, plan_timing, source_frame_index, PipelineError,
};
use glide::zoom::{calculate_zoom, get_effective_clicks, ZoomConfig};

fn secs(t: f64) -> i64 {
    (t * 1_000_000.0).round() as i64
}

fn click(x: f64, y: f64, t: f64) -> CursorEvent {
    CursorEvent {
        x: (x * 1000.0).round() as i64,
        y: (y * 1000.0).round() as i64,
        timestamp: secs(t),
        event_type: EventType::LeftClick,
    }
}

fn gradient(width: u32, height: u32) -> Frame {
    let mut pixels = Vec::new();
    for y in 0..height {
        for x in 0..width {
            pixels.push(Rgba { r: (x * 255 / width) as u8, g: (y * 255 / height) as u8, b: 90, a: 255 });
        }
    }
    Frame { width, height, pixels }
}

fn metadata(width: u32, height: u32, scale_factor: i64, events: Vec<CursorEvent>) -> RecordingMetadata {
    let mut m = RecordingMetadata::new_display(0, width, height);
    m.scale_factor = scale_factor;
    m.cursor_events = events;
    m
}

#[test]
fn plan_for_two_seconds() {
    let plan = plan_timing(2_000_000, None, None, 0, 0).unwrap();
    assert_eq!(plan.trimmed_duration, 2_000_000);
    assert_eq!(plan.output_frame_count, 120);
    assert_eq!(plan.time_offset, 0);
}

#[test]
fn plan_with_trims_and_offsets() {
    let plan = plan_timing(10_000_000, Some(1_000_000), Some(500_000), 250_000, 0).unwrap();
    assert_eq!(plan.trimmed_duration, 8_500_000);
    assert_eq!(plan.output_frame_count, 510);
    assert_eq!(plan.time_offset, 1_250_000);
    // no precise lead: approximate from the tracking duration
    let plan = plan_timing(10_000_000, None, None, 0, 10_300_000).unwrap();
    assert_eq!(plan.time_offset, 300_000);
    // negative trims count as none; partial frames round up
    let plan = plan_timing(1_010_000, Some(-5), None, 0, 0).unwrap();
    assert_eq!(plan.trim_start, 0);
    assert_eq!(plan.output_frame_count, 61);
}

#[test]
fn plan_rejects_trimming_everything() {
    assert_eq!(plan_timing(2_000_000, Some(1_000_000), Some(1_000_000), 0, 0), Err(PipelineError::TrimExceedsDuration));
    assert_eq!(plan_timing(0, None, None, 0, 0), Err(PipelineError::TrimExceedsDuration));
}

#[test]
fn frame_times_and_source_indices() {
    assert_eq!(frame_timestamp(1, 0), 0);
    assert_eq!(frame_timestamp(61, 250_000), 1_250_000);
    assert_eq!(frame_timestamp(2, 0), 16_666);
    // 30 source frames over 1 s, 60 output frames: each source frame twice
    assert_eq!(source_frame_index(1, 30, 1_000_000), 0);
    assert_eq!(source_frame_index(2, 30, 1_000_000), 0);
    assert_eq!(source_frame_index(3, 30, 1_000_000), 1);
    assert_eq!(source_frame_index(60, 30, 1_000_000), 29);
    assert_eq!(source_frame_index(500, 30, 1_000_000), 29);
}

fn compose(t: i64, m: &RecordingMetadata, source: &Frame, cursor: Option<CursorConfig>) -> Frame {
    let layout = ContentLayout::calculate(m.width, m.height);
    let sprite = Frame::solid(12, 20, Rgba { r: 250, g: 10, b: 10, a: 255 });
    let background = Background::parse(None).unwrap();
    compose_frame(
        t,
        source,
        m,
        &layout,
        &ZoomConfig::default(),
        cursor,
        &MotionBlurConfig::default(),
        &ClickHighlightConfig::default(),
        &background,
        &sprite,
    )
}

#[test]
fn empty_event_log_scenario() {
    let m = metadata(128, 72, 1000, vec![]);
    let plan = plan_timing(2_000_000, None, None, 0, 0).unwrap();
    assert_eq!(plan.output_frame_count, 120);
    let zc = ZoomConfig::default();
    for k in [1u64, 30, 60, 120] {
        let t = frame_timestamp(k, plan.time_offset);
        assert_eq!(calculate_zoom(t, &m.cursor_events, &zc).0, UNIT);
    }
    let source = gradient(128, 72);
    let f30 = compose(frame_timestamp(30, 0), &m, &source, Some(CursorConfig::default()));
    let f60 = compose(frame_timestamp(60, 0), &m, &source, Some(CursorConfig::default()));
    assert_eq!(f30.pixels, f60.pixels);
    assert_eq!((f30.width, f30.height), (1920, 1080));
    // content is centred: (896, 504) to (1024, 576); its rounded corner is background
    assert_eq!(f30.get_pixel(896 + 64, 504 + 36), source.get_pixel(64, 36));
    assert_eq!(f30.get_pixel(896, 504), Rgba { r: 26, g: 26, b: 46, a: 255 });
    // the shadow darkens the background just below the content
    let below = f30.get_pixel(960, 578);
    assert!(below.r < 26 && below.b < 46);
}

#[test]
fn single_click_scenario() {
    let events = vec![click(400.0, 300.0, 1.0)];
    let m = metadata(1280, 720, 2000, events);
    let zc = ZoomConfig::default();
    let z = |t: f64| calculate_zoom(secs(t), &m.cursor_events, &zc);
    assert_eq!(z(0.4).0, UNIT);
    let mid = z(0.7).0;
    assert!(mid > UNIT && mid < 1_500_000);
    let (zoom, fx, fy) = z(1.0);
    assert_eq!((zoom, fx, fy), (1_500_000, 400_000, 300_000));
    let layout = ContentLayout::calculate(1280, 720);
    assert_eq!(to_canvas(fx, fy, m.scale_factor, m.window_offset, &layout), ((320 + 800) * 1000, (180 + 600) * 1000));
    assert_eq!(z(5.0).0, 1_500_000);
    let out = z(5.4).0;
    assert!(out > UNIT && out < 1_500_000);
    assert_eq!(z(5.9).0, UNIT);
}

#[test]
fn two_clicks_pan_scenario() {
    let events = vec![click(100.0, 100.0, 1.0), click(200.0, 200.0, 5.0)];
    let zc = ZoomConfig::default();
    assert_eq!(calculate_zoom(secs(3.0), &events, &zc), (1_500_000, 100_000, 100_000));
    let (zoom, x, y) = calculate_zoom(secs(4.7), &events, &zc);
    assert_eq!(zoom, 1_500_000);
    assert!(x > 100_000 && x < 200_000 && y > 100_000 && y < 200_000);
    assert_eq!(calculate_zoom(secs(5.0), &events, &zc), (1_500_000, 200_000, 200_000));
}

#[test]
fn double_click_scenario() {
    let events = vec![click(100.0, 100.0, 1.0), click(100.0, 100.0, 1.1)];
    let effective = get_effective_clicks(&events, &ZoomConfig::default());
    assert_eq!(effective, vec![click(100.0, 100.0, 1.0)]);
    let ripples = get_active_ripples(secs(1.15), &events, &ClickHighlightConfig::default());
    assert_eq!(ripples.len(), 2);
}

#[test]
fn no_cursor_scenario() {
    let events = vec![CursorEvent { x: 20_000, y: 20_000, timestamp: 1_000_000, event_type: EventType::Move }];
    let m = metadata(128, 72, 1000, events);
    let source = gradient(128, 72);
    let without = compose(secs(1.0), &m, &source, None);
    let with = compose(secs(1.0), &m, &source, Some(CursorConfig::default()));
    assert_ne!(without.pixels, with.pixels);
    // every pixel off the cursor sprite is identical
    let differing = without.pixels.iter().zip(with.pixels.iter()).filter(|(a, b)| a != b).count();
    assert!(differing > 0 && differing <= 28 * 48);
    // without a cursor, the cursor's pixel shows the content
    assert_eq!(without.get_pixel(896 + 20, 504 + 20), source.get_pixel(20, 20));
}

#[test]
fn window_metadata() {
    let m = RecordingMetadata::new_window(42, 800, 600, 10, -20);
    assert_eq!(m.source_type, SourceType::Window);
    assert_eq!(m.source_index, 42);
    assert_eq!(m.window_offset, (10, -20));
    assert!(m.cursor_events.is_empty());
}
