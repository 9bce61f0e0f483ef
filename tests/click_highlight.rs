use glide::click_highlight::{
    draw_click_highlights, draw_ring_pixels, get_active_ripples, ActiveRipple, ClickHighlightConfig,
};
use glide::events::{CursorEvent, EventType};
use glide::frame::{Frame, Rgba};

fn event(x: f64, y: f64, timestamp: f64, event_type: EventType) -> CursorEvent {
    CursorEvent {
        x: (x * 1000.0).round() as i64,
        y: (y * 1000.0).round() as i64,
        timestamp: (timestamp * 1_000_000.0).round() as i64,
        event_type,
    }
}

fn make_click(x: f64, y: f64, timestamp: f64) -> CursorEvent {
    event(x, y, timestamp, EventType::LeftClick)
}

fn make_move(x: f64, y: f64, timestamp: f64) -> CursorEvent {
    event(x, y, timestamp, EventType::Move)
}

fn secs(t: f64) -> i64 {
    (t * 1_000_000.0).round() as i64
}

#[test]
fn test_no_ripples_before_click() {
    let config = ClickHighlightConfig::default();
    let events = vec![make_click(100.0, 100.0, 1.0)];
    let ripples = get_active_ripples(secs(0.5), &events, &config);
    assert!(ripples.is_empty(), "Should have no ripples before click");
}

#[test]
fn test_ripple_during_animation() {
    let config = ClickHighlightConfig::default();
    let events = vec![make_click(100.0, 100.0, 1.0)];
    let ripples = get_active_ripples(secs(1.2), &events, &config);
    assert_eq!(ripples.len(), 1, "Should have one ripple");
    assert!((ripples[0].x as f64 / 1000.0 - 100.0).abs() < 0.01);
    assert!((ripples[0].y as f64 / 1000.0 - 100.0).abs() < 0.01);
    let progress = ripples[0].progress as f64 / 1e6;
    assert!(progress > 0.0 && progress < 1.0);
}

#[test]
fn test_no_ripple_after_duration() {
    let config = ClickHighlightConfig::default();
    let events = vec![make_click(100.0, 100.0, 1.0)];
    let ripples = get_active_ripples(secs(1.5), &events, &config);
    assert!(ripples.is_empty(), "Should have no ripples after duration");
}

#[test]
fn test_only_clicks_create_ripples() {
    let config = ClickHighlightConfig::default();
    let events = vec![
        make_move(50.0, 50.0, 0.9),
        make_click(100.0, 100.0, 1.0),
        make_move(150.0, 150.0, 1.1),
    ];
    let ripples = get_active_ripples(secs(1.2), &events, &config);
    assert_eq!(ripples.len(), 1, "Only clicks should create ripples");
    assert!((ripples[0].x as f64 / 1000.0 - 100.0).abs() < 0.01);
}

#[test]
fn test_multiple_overlapping_ripples() {
    let config = ClickHighlightConfig::default();
    let events = vec![make_click(100.0, 100.0, 1.0), make_click(200.0, 200.0, 1.2)];
    let ripples = get_active_ripples(secs(1.3), &events, &config);
    assert_eq!(ripples.len(), 2, "Should have two overlapping ripples");
}

#[test]
fn test_draw_ring_modifies_canvas() {
    let config = ClickHighlightConfig::default();
    let mut canvas = Frame::solid(200, 200, Rgba { r: 0, g: 0, b: 0, a: 255 });
    let ripples = vec![ActiveRipple { x: 100_000, y: 100_000, progress: 500_000 }];
    draw_click_highlights(&mut canvas, &ripples, &config);
    let mut found_white = false;
    for y in 0..200 {
        for x in 0..200 {
            let pixel = canvas.get_pixel(x, y);
            if pixel.r > 0 || pixel.g > 0 || pixel.b > 0 {
                found_white = true;
                break;
            }
        }
    }
    assert!(found_white, "Ring should have been drawn on canvas");
}

#[test]
fn ripple_progress_exact() {
    let config = ClickHighlightConfig::default();
    let events = vec![make_click(100.0, 100.0, 1.0)];
    let ripples = get_active_ripples(secs(1.1), &events, &config);
    assert_eq!(ripples, vec![ActiveRipple { x: 100_000, y: 100_000, progress: 250_000 }]);
    // at exactly the click time the ripple starts; at the end it is gone
    assert_eq!(get_active_ripples(secs(1.0), &events, &config).len(), 1);
    assert!(get_active_ripples(secs(1.4), &events, &config).is_empty());
}

#[test]
fn right_clicks_ripple_too() {
    let config = ClickHighlightConfig::default();
    let events = vec![event(5.0, 6.0, 1.0, EventType::RightClick)];
    assert_eq!(get_active_ripples(secs(1.2), &events, &config).len(), 1);
}

#[test]
fn disabled_highlights_leave_canvas() {
    let mut config = ClickHighlightConfig::default();
    config.enabled = false;
    let mut canvas = Frame::solid(50, 50, Rgba { r: 0, g: 0, b: 0, a: 255 });
    let ripples = vec![ActiveRipple { x: 25_000, y: 25_000, progress: 500_000 }];
    draw_click_highlights(&mut canvas, &ripples, &config);
    assert!(canvas.pixels.iter().all(|p| *p == Rgba { r: 0, g: 0, b: 0, a: 255 }));
}

#[test]
fn ring_pixels_full_coverage_inside_band() {
    let mut canvas = Frame::solid(40, 40, Rgba { r: 0, g: 0, b: 0, a: 255 });
    // ring from 5 px to 10 px around (20, 20), full opacity, white
    draw_ring_pixels(&mut canvas, 20_000, 20_000, 5_000, 10_000, 1_000_000, Rgba { r: 255, g: 255, b: 255, a: 255 });
    assert_eq!(canvas.get_pixel(27, 20), Rgba { r: 255, g: 255, b: 255, a: 255 });
    assert_eq!(canvas.get_pixel(20, 20), Rgba { r: 0, g: 0, b: 0, a: 255 });
    assert_eq!(canvas.get_pixel(32, 20), Rgba { r: 0, g: 0, b: 0, a: 255 });
    // 5.5 px from the centre: half coverage on the inner edge (edge 0.5 -> alpha 127)
    let mut c2 = Frame::solid(40, 40, Rgba { r: 0, g: 0, b: 0, a: 255 });
    draw_ring_pixels(&mut c2, 20_500, 20_000, 5_000, 10_000, 1_000_000, Rgba { r: 255, g: 255, b: 255, a: 255 });
    assert_eq!(c2.get_pixel(26, 20), Rgba { r: 127, g: 127, b: 127, a: 255 });
}
