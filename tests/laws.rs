use glide::cursor::{calculate_activity_opacity, get_smoothed_position, CursorConfig};
use glide::effects::{apply_rounded_corners, zoom_origin_milli};
use glide::events::{CursorEvent, EventType};
use glide::frame::{Frame, Rgba};
use glide::zoom::{calculate_zoom, get_effective_clicks, ZoomConfig};

fn ev(x: i64, y: i64, t: i64, event_type: EventType) -> CursorEvent {
    CursorEvent { x, y, timestamp: t, event_type }
}

#[test]
fn debounce_twice_keeps_the_same_clicks() {
    let config = ZoomConfig::default();
    let events = vec![
        ev(1, 1, 100_000, EventType::LeftClick),
        ev(2, 2, 300_000, EventType::RightClick),
        ev(3, 3, 700_000, EventType::Move),
        ev(4, 4, 700_001, EventType::LeftClick),
        ev(5, 5, 1_200_001, EventType::LeftClick),
        ev(6, 6, 1_200_002, EventType::LeftClick),
    ];
    let once = get_effective_clicks(&events, &config);
    assert_eq!(once.len(), 3);
    let twice = get_effective_clicks(&once, &config);
    assert_eq!(once, twice);
}

#[test]
fn pan_keeps_peak_zoom_between_close_clicks() {
    let config = ZoomConfig::default();
    let events = vec![
        ev(0, 0, 1_000_000, EventType::LeftClick),
        ev(500_000, 400_000, 6_300_000, EventType::LeftClick),
    ];
    let mut t = 1_000_000;
    while t <= 6_300_000 {
        assert!(calculate_zoom(t, &events, &config).0 >= config.max_zoom);
        t += 37_000;
    }
}

#[test]
fn smoothing_stays_in_bounding_box() {
    let events = vec![
        ev(10_000, 50_000, 900_000, EventType::Move),
        ev(30_000, 20_000, 950_000, EventType::Move),
        ev(20_000, 90_000, 1_000_000, EventType::Move),
        ev(40_000, 10_000, 1_060_000, EventType::LeftClick),
    ];
    for t in [950_000, 1_000_000, 1_030_000] {
        let (x, y) = get_smoothed_position(t, &events, 150_000);
        assert!((10_000..=40_000).contains(&x));
        assert!((10_000..=90_000).contains(&y));
    }
}

#[test]
fn opacity_never_rises_after_last_event() {
    let events = vec![ev(0, 0, 1_000_000, EventType::Move)];
    let config = CursorConfig::default();
    let mut previous = i64::MAX;
    let mut t = 1_000_000;
    while t < 4_000_000 {
        let o = calculate_activity_opacity(t, &events, &config);
        assert!(o <= previous);
        previous = o;
        t += 10_000;
    }
}

#[test]
fn zoom_maps_focus_back_to_itself() {
    for zoom in [1_100_000i64, 1_500_000, 1_800_000, 3_000_000] {
        for focus in [0i64, 100_000, 660_000, 960_000, 1_800_000] {
            let left = zoom_origin_milli(focus, zoom) as i128;
            let back = (focus as i128 - left) * zoom as i128 / 1_000_000;
            assert!(back >= focus as i128 && back <= focus as i128 + 1000);
        }
    }
}

#[test]
fn rounded_corner_alpha_inside_and_outside_arc() {
    let mut img = Frame::solid(64, 48, Rgba { r: 9, g: 9, b: 9, a: 180 });
    apply_rounded_corners(&mut img, 12);
    let corners = [(12i64, 12i64), (51, 12), (12, 35), (51, 35)];
    for y in 0..48i64 {
        for x in 0..64i64 {
            for (cx, cy) in corners {
                let in_square = (if cx == 12 { x <= 12 } else { x >= 51 }) && (if cy == 12 { y <= 12 } else { y >= 35 });
                if !in_square {
                    continue;
                }
                let d2 = (x - cx) * (x - cx) + (y - cy) * (y - cy);
                let a = img.get_pixel(x as u32, y as u32).a;
                if 4 * d2 <= 21 * 21 {
                    assert_eq!(a, 180);
                }
                if d2 > 144 {
                    assert_eq!(a, 0);
                }
            }
        }
    }
}
