use glide::events::{CursorEvent, EventType};
use glide::fixed::UNIT;
use glide::zoom::{calculate_zoom, get_effective_clicks, ZoomConfig};

fn make_click(x: f64, y: f64, timestamp: f64) -> CursorEvent {
    CursorEvent {
        x: (x * 1000.0).round() as i64,
        y: (y * 1000.0).round() as i64,
        timestamp: (timestamp * 1_000_000.0).round() as i64,
        event_type: EventType::LeftClick,
    }
}

fn secs(t: f64) -> i64 {
    (t * 1_000_000.0).round() as i64
}

fn zoom_f(z: i64) -> f64 {
    z as f64 / UNIT as f64
}

fn pos_f(v: i64) -> f64 {
    v as f64 / 1000.0
}

#[test]
fn test_anticipatory_zoom_single_click() {
    let config = ZoomConfig::default();
    let max_zoom = zoom_f(config.max_zoom);
    let events = vec![make_click(100.0, 100.0, 1.0)];

    let (zoom, _, _) = calculate_zoom(secs(0.3), &events, &config);
    assert!((zoom_f(zoom) - 1.0).abs() < 0.01, "Should be idle before anticipatory window");

    let (zoom, x, y) = calculate_zoom(secs(0.6), &events, &config);
    assert!(zoom_f(zoom) > 1.0 && zoom_f(zoom) < max_zoom, "Should be zooming in");
    assert!((pos_f(x) - 100.0).abs() < 0.01, "Should target click position");
    assert!((pos_f(y) - 100.0).abs() < 0.01, "Should target click position");

    let (zoom, _, _) = calculate_zoom(secs(1.0), &events, &config);
    assert!((zoom_f(zoom) - max_zoom).abs() < 0.01, "Should be at max zoom at click moment");

    let (zoom, _, _) = calculate_zoom(secs(3.0), &events, &config);
    assert!((zoom_f(zoom) - max_zoom).abs() < 0.01, "Should hold at max zoom");

    let (zoom, _, _) = calculate_zoom(secs(5.5), &events, &config);
    assert!(zoom_f(zoom) > 1.0 && zoom_f(zoom) < max_zoom, "Should be zooming out");

    let (zoom, _, _) = calculate_zoom(secs(6.0), &events, &config);
    assert!((zoom_f(zoom) - 1.0).abs() < 0.01, "Should be back to idle");
}

#[test]
fn test_panning_between_close_clicks() {
    let config = ZoomConfig::default();
    let max_zoom = zoom_f(config.max_zoom);
    let events = vec![make_click(100.0, 100.0, 1.0), make_click(200.0, 200.0, 5.0)];

    let (zoom, x, _) = calculate_zoom(secs(1.0), &events, &config);
    assert!((zoom_f(zoom) - max_zoom).abs() < 0.01);
    assert!((pos_f(x) - 100.0).abs() < 0.01);

    let (zoom, x, _) = calculate_zoom(secs(3.0), &events, &config);
    assert!((zoom_f(zoom) - max_zoom).abs() < 0.01, "Should stay at max zoom");
    assert!((pos_f(x) - 100.0).abs() < 0.01, "Should stay at first click position during hold");

    let (zoom, x, _) = calculate_zoom(secs(4.7), &events, &config);
    assert!((zoom_f(zoom) - max_zoom).abs() < 0.01, "Should stay at max zoom during pan");
    assert!(pos_f(x) > 100.0 && pos_f(x) < 200.0, "Should be interpolating x position");

    let (zoom, x, y) = calculate_zoom(secs(5.0), &events, &config);
    assert!((zoom_f(zoom) - max_zoom).abs() < 0.01);
    assert!((pos_f(x) - 200.0).abs() < 0.01);
    assert!((pos_f(y) - 200.0).abs() < 0.01);
}

#[test]
fn test_zoom_out_between_far_clicks() {
    let config = ZoomConfig::default();
    let events = vec![make_click(100.0, 100.0, 1.0), make_click(200.0, 200.0, 11.0)];

    let (zoom, _, _) = calculate_zoom(secs(6.0), &events, &config);
    assert!((zoom_f(zoom) - 1.0).abs() < 0.01, "Should zoom out to idle between far clicks");

    let (zoom, _, _) = calculate_zoom(secs(10.0), &events, &config);
    assert!((zoom_f(zoom) - 1.0).abs() < 0.01, "Should be idle before second click");

    let (zoom, x, _) = calculate_zoom(secs(10.6), &events, &config);
    assert!(zoom_f(zoom) > 1.0, "Should be zooming in to second click");
    assert!((pos_f(x) - 200.0).abs() < 0.01, "Should target second click position");
}

#[test]
fn zoom_test_double_click_debounce() {
    let config = ZoomConfig::default();
    let events = vec![make_click(100.0, 100.0, 1.0), make_click(150.0, 150.0, 1.1)];

    let effective = get_effective_clicks(&events, &config);
    assert_eq!(effective.len(), 1, "Second click should be debounced");
    assert!((effective[0].timestamp as f64 / 1e6 - 1.0).abs() < 0.01, "Should keep first click");
}

#[test]
fn test_three_rapid_clicks_pan_through() {
    let config = ZoomConfig::default();
    let max_zoom = zoom_f(config.max_zoom);
    let events = vec![
        make_click(100.0, 100.0, 1.0),
        make_click(200.0, 200.0, 4.0),
        make_click(300.0, 300.0, 7.0),
    ];

    let (zoom, _, _) = calculate_zoom(secs(2.0), &events, &config);
    assert!((zoom_f(zoom) - max_zoom).abs() < 0.01, "Should stay zoomed");

    let (zoom, _, _) = calculate_zoom(secs(5.0), &events, &config);
    assert!((zoom_f(zoom) - max_zoom).abs() < 0.01, "Should stay zoomed through second click");

    let (zoom, _, _) = calculate_zoom(secs(12.0), &events, &config);
    assert!((zoom_f(zoom) - 1.0).abs() < 0.01, "Should zoom out after last click");
}

#[test]
fn test_smooth_transition_between_clicks() {
    let config = ZoomConfig::default();
    let events = vec![make_click(100.0, 100.0, 1.0), make_click(200.0, 200.0, 2.0)];

    let effective = get_effective_clicks(&events, &config);
    assert_eq!(effective.len(), 2);
    assert_eq!(effective[0].timestamp, 1_000_000);
    assert_eq!(effective[1].timestamp, 2_000_000);
}

#[test]
fn empty_log_is_idle_at_origin() {
    let config = ZoomConfig::default();
    let events: Vec<CursorEvent> = vec![];
    for t in [0, 500_000, 1_000_000, 1_999_999] {
        assert_eq!(calculate_zoom(t, &events, &config), (UNIT, 0, 0));
    }
}

#[test]
fn no_clicks_follow_latest_position() {
    let config = ZoomConfig::default();
    let events = vec![
        CursorEvent { x: 10_000, y: 20_000, timestamp: 100_000, event_type: EventType::Move },
        CursorEvent { x: 30_000, y: 40_000, timestamp: 200_000, event_type: EventType::Move },
    ];
    assert_eq!(calculate_zoom(50_000, &events, &config), (UNIT, 0, 0));
    assert_eq!(calculate_zoom(150_000, &events, &config), (UNIT, 10_000, 20_000));
    assert_eq!(calculate_zoom(900_000, &events, &config), (UNIT, 30_000, 40_000));
}

#[test]
fn coincident_clicks_keep_only_first() {
    let config = ZoomConfig::default();
    let mut second = make_click(300.0, 300.0, 1.0);
    second.event_type = EventType::RightClick;
    let events = vec![make_click(100.0, 100.0, 1.0), second];
    let effective = get_effective_clicks(&events, &config);
    assert_eq!(effective, vec![make_click(100.0, 100.0, 1.0)]);
}

#[test]
fn anticipatory_zoom_exact_value() {
    // p = 1 - 0.3/0.6 = 0.5; ease_out(0.5) = 0.875; zoom = 1 + 0.5 * 0.875
    let config = ZoomConfig::default();
    let events = vec![make_click(100.0, 100.0, 1.0)];
    let (zoom, x, y) = calculate_zoom(secs(0.7), &events, &config);
    assert_eq!(zoom, 1_437_500);
    assert_eq!((x, y), (100_000, 100_000));
}

#[test]
fn ease_out_exact_value() {
    // q = (5.4 - 5.0) / 0.8 = 0.5; ease_in(0.5) = 0.125; zoom = 1.5 - 0.5 * 0.125
    let config = ZoomConfig::default();
    let events = vec![make_click(100.0, 100.0, 1.0)];
    let (zoom, _, _) = calculate_zoom(secs(5.4), &events, &config);
    assert_eq!(zoom, 1_437_500);
}

#[test]
fn total_duration_sums_phases() {
    assert_eq!(ZoomConfig::default().total_duration(), 5_400_000);
}
