use glide::cursor::{
    calculate_activity_opacity, draw_cursor, get_smoothed_cursor, get_smoothed_position,
    gaussian_weight, CursorConfig,
};
use glide::events::{CursorEvent, EventType};
use glide::fixed::UNIT;
use glide::frame::{Frame, Rgba};

fn make_move(x: f64, y: f64, timestamp: f64) -> CursorEvent {
    CursorEvent {
        x: (x * 1000.0).round() as i64,
        y: (y * 1000.0).round() as i64,
        timestamp: (timestamp * 1_000_000.0).round() as i64,
        event_type: EventType::Move,
    }
}

fn secs(t: f64) -> i64 {
    (t * 1_000_000.0).round() as i64
}

fn pos(v: i64) -> f64 {
    v as f64 / 1000.0
}

fn opacity(v: i64) -> f64 {
    v as f64 / UNIT as f64
}

fn smoothed_single(name: &str) {
    let events = vec![make_move(100.0, 200.0, 1.0)];
    let config = CursorConfig::default();
    let state = get_smoothed_cursor(secs(1.0), &events, &config);
    assert!((pos(state.x) - 100.0).abs() < 0.01, "{}", name);
    assert!((pos(state.y) - 200.0).abs() < 0.01, "{}", name);
}

fn smoothed_multiple() {
    let events = vec![
        make_move(100.0, 100.0, 0.98),
        make_move(110.0, 110.0, 1.0),
        make_move(120.0, 120.0, 1.02),
    ];
    let config = CursorConfig::default();
    let state = get_smoothed_cursor(secs(1.0), &events, &config);
    assert!(pos(state.x) > 105.0 && pos(state.x) < 115.0);
    assert!(pos(state.y) > 105.0 && pos(state.y) < 115.0);
}

fn opacity_active() {
    let events = vec![make_move(100.0, 100.0, 1.0)];
    let config = CursorConfig::default();
    let state = get_smoothed_cursor(secs(1.0), &events, &config);
    assert!((opacity(state.opacity) - 1.0).abs() < 0.01);
    let state = get_smoothed_cursor(secs(2.5), &events, &config);
    assert!((opacity(state.opacity) - 1.0).abs() < 0.01);
}

fn opacity_fading() {
    let events = vec![make_move(100.0, 100.0, 1.0)];
    let config = CursorConfig::default();
    let state = get_smoothed_cursor(secs(3.15), &events, &config);
    assert!(opacity(state.opacity) > 0.0 && opacity(state.opacity) < 1.0, "Should be fading");
}

fn opacity_hidden() {
    let events = vec![make_move(100.0, 100.0, 1.0)];
    let config = CursorConfig::default();
    let state = get_smoothed_cursor(secs(3.5), &events, &config);
    assert!(opacity(state.opacity) < 0.01, "Should be hidden");
}

fn no_events() {
    let events: Vec<CursorEvent> = vec![];
    let config = CursorConfig::default();
    let state = get_smoothed_cursor(secs(1.0), &events, &config);
    assert!(opacity(state.opacity) < 0.01, "Should be hidden with no events");
}

#[test]
fn cursor_smooth_test_smoothed_position_single_event() {
    smoothed_single("single event");
}

#[test]
fn cursor_smooth_test_smoothed_position_multiple_events() {
    smoothed_multiple();
}

#[test]
fn cursor_smooth_test_opacity_active() {
    opacity_active();
}

#[test]
fn cursor_smooth_test_opacity_fading() {
    opacity_fading();
}

#[test]
fn cursor_smooth_test_opacity_hidden() {
    opacity_hidden();
}

#[test]
fn cursor_smooth_test_no_events() {
    no_events();
}

#[test]
fn cursor_test_smoothed_position_single_event() {
    smoothed_single("single event");
}

#[test]
fn cursor_test_smoothed_position_multiple_events() {
    smoothed_multiple();
}

#[test]
fn cursor_test_opacity_active() {
    opacity_active();
}

#[test]
fn cursor_test_opacity_fading() {
    opacity_fading();
}

#[test]
fn cursor_test_opacity_hidden() {
    opacity_hidden();
}

#[test]
fn cursor_test_no_events() {
    no_events();
}

#[test]
fn gaussian_weight_values() {
    assert_eq!(gaussian_weight(0, 150_000), UNIT);
    // one sigma in the past: exp(-0.5) ~ 0.6065
    let w = gaussian_weight(-150_000, 150_000);
    assert!((w as f64 / 1e6 - 0.6065).abs() < 0.005);
    // half a sigma ahead counts as a full sigma
    assert_eq!(gaussian_weight(75_000, 150_000), w);
    // two sigmas in the past: exp(-2) ~ 0.1353
    let far = gaussian_weight(-300_000, 150_000);
    assert!((far as f64 / 1e6 - 0.1353).abs() < 0.01);
}

#[test]
fn smoothing_falls_back_to_latest_event() {
    let events = vec![make_move(10.0, 20.0, 1.0), make_move(30.0, 40.0, 2.0)];
    // window [t - 0.3, t + 0.075] around t = 1.5 is empty
    assert_eq!(get_smoothed_position(secs(1.5), &events, 150_000), (10_000, 20_000));
    assert_eq!(get_smoothed_position(secs(0.5), &events, 150_000), (0, 0));
}

#[test]
fn smoothing_two_equal_weights_is_midpoint() {
    let events = vec![make_move(100.0, 0.0, 0.9), make_move(200.0, 50.0, 1.05)];
    // offsets -0.1 and +0.05 (doubled to 0.1) weigh the same
    assert_eq!(get_smoothed_position(secs(1.0), &events, 150_000), (150_000, 25_000));
}

#[test]
fn opacity_fade_exact() {
    // idle 2.15 s: fade progress 0.5, ease-out 0.875
    let events = vec![make_move(1.0, 1.0, 1.0)];
    let config = CursorConfig::default();
    assert_eq!(calculate_activity_opacity(secs(3.15), &events, &config), 125_000);
    assert_eq!(calculate_activity_opacity(secs(0.5), &events, &config), 0);
}

#[test]
fn config_new_keeps_smoothing_defaults() {
    let c = CursorConfig::new(1_000_000, 3_000_000);
    assert_eq!(c.cursor_scale, 1_000_000);
    assert_eq!(c.inactivity_timeout, 3_000_000);
    assert_eq!(c.smooth_window, 150_000);
    assert_eq!(c.fade_duration, 300_000);
}

#[test]
fn draw_cursor_blends_sprite() {
    let mut canvas = Frame::solid(64, 64, Rgba { r: 0, g: 0, b: 0, a: 255 });
    let sprite = Frame::solid(16, 32, Rgba { r: 255, g: 255, b: 255, a: 255 });
    // scale 1: sprite drawn 16 x 32 at (10, 10), half opacity
    draw_cursor(&mut canvas, &sprite, 10_500, 10_000, UNIT, UNIT / 2);
    assert_eq!(canvas.get_pixel(10, 10), Rgba { r: 127, g: 127, b: 127, a: 255 });
    assert_eq!(canvas.get_pixel(25, 41), Rgba { r: 127, g: 127, b: 127, a: 255 });
    assert_eq!(canvas.get_pixel(26, 10), Rgba { r: 0, g: 0, b: 0, a: 255 });
    assert_eq!(canvas.get_pixel(9, 10), Rgba { r: 0, g: 0, b: 0, a: 255 });
}
