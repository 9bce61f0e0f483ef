use glide::effects::ContentLayout;
use glide::events::{CursorEvent, EventType};
use glide::frame::{Frame, Rgba};
use glide::motion_blur::{
    apply_directional_blur, apply_motion_blur, apply_radial_blur, bilinear_sample,
    calculate_motion_state, determine_motion_phase, MotionBlurConfig, MotionPhase, MotionState,
};
use glide::zoom::ZoomConfig;

fn create_test_image(width: u32, height: u32) -> Frame {
    let mut pixels = Vec::new();
    for y in 0..height {
        for x in 0..width {
            let r = (x * 255 / width) as u8;
            let g = (y * 255 / height) as u8;
            pixels.push(Rgba { r, g, b: 128, a: 255 });
        }
    }
    Frame { width, height, pixels }
}

fn units(v: f64) -> i64 {
    (v * 1_000_000.0).round() as i64
}

fn milli(v: f64) -> i64 {
    (v * 1000.0).round() as i64
}

#[test]
fn test_motion_phase_idle() {
    let phase = determine_motion_phase(units(1.0), units(0.0), milli(0.0), milli(0.0));
    assert_eq!(phase, MotionPhase::Idle);
}

#[test]
fn test_motion_phase_zoom_in() {
    let phase = determine_motion_phase(units(1.5), units(0.5), milli(0.0), milli(0.0));
    assert_eq!(phase, MotionPhase::ZoomIn);
}

#[test]
fn test_motion_phase_zoom_out() {
    let phase = determine_motion_phase(units(1.5), units(-0.5), milli(0.0), milli(0.0));
    assert_eq!(phase, MotionPhase::ZoomOut);
}

#[test]
fn test_motion_phase_pan() {
    let phase = determine_motion_phase(units(1.8), units(0.0), milli(200.0), milli(0.0));
    assert_eq!(phase, MotionPhase::Pan);
}

#[test]
fn test_motion_phase_hold() {
    let phase = determine_motion_phase(units(1.8), units(0.0), milli(0.0), milli(0.0));
    assert_eq!(phase, MotionPhase::Hold);
}

#[test]
fn test_radial_blur_no_velocity() {
    let img = create_test_image(100, 100);
    let config = MotionBlurConfig::default();
    let result = apply_radial_blur(&img, milli(50.0), milli(50.0), units(0.0), &config);
    assert_eq!(img.get_pixel(50, 50), result.get_pixel(50, 50));
}

#[test]
fn test_radial_blur_with_velocity() {
    let img = create_test_image(100, 100);
    let config = MotionBlurConfig::default();
    let result = apply_radial_blur(&img, milli(50.0), milli(50.0), units(1.0), &config);
    let orig_center = img.get_pixel(50, 50);
    let blurred_center = result.get_pixel(50, 50);
    assert!((orig_center.r as i32 - blurred_center.r as i32).abs() < 20);
}

#[test]
fn test_bilinear_sample_integer() {
    let img = create_test_image(100, 100);
    let sampled = bilinear_sample(&img, milli(50.0), milli(50.0));
    let direct = img.get_pixel(50, 50);
    assert_eq!(sampled, direct);
}

#[test]
fn bilinear_sample_halfway() {
    let pixels = vec![
        Rgba { r: 0, g: 0, b: 0, a: 255 },
        Rgba { r: 200, g: 100, b: 50, a: 255 },
    ];
    let img = Frame { width: 2, height: 1, pixels };
    assert_eq!(bilinear_sample(&img, 500, 0), Rgba { r: 100, g: 50, b: 25, a: 255 });
}

#[test]
fn radial_blur_changes_edges() {
    let img = create_test_image(100, 100);
    let config = MotionBlurConfig::default();
    let result = apply_radial_blur(&img, milli(50.0), milli(50.0), units(1.0), &config);
    assert_ne!(img.get_pixel(5, 5), result.get_pixel(5, 5));
}

#[test]
fn directional_blur_threshold() {
    let img = create_test_image(60, 60);
    let config = MotionBlurConfig::default();
    // 20 px/s is under the 25 px/s threshold: unchanged
    let slow = apply_directional_blur(&img, milli(20.0), 0, &config);
    assert_eq!(slow.pixels, img.pixels);
    // 1500 px/s to the right: each pixel averages samples up to 60 px to its left
    let fast = apply_directional_blur(&img, milli(1500.0), 0, &config);
    assert!(fast.get_pixel(59, 30).r < img.get_pixel(59, 30).r);
    assert_eq!(fast.get_pixel(0, 30), img.get_pixel(0, 30));
}

fn state(phase: MotionPhase, vx: i64) -> MotionState {
    MotionState {
        zoom: units(1.5),
        zoom_velocity: 0,
        cursor_x: 0,
        cursor_y: 0,
        pan_velocity_x: vx,
        pan_velocity_y: 0,
        phase,
    }
}

#[test]
fn pan_speed_boundary() {
    let img = create_test_image(60, 60);
    let config = MotionBlurConfig::default();
    let slow = determine_motion_phase(units(1.5), 0, milli(49.0), 0);
    assert_eq!(slow, MotionPhase::Hold);
    let out = apply_motion_blur(&img, &state(slow, milli(49.0)), &config);
    assert_eq!(out.pixels, img.pixels);

    let fast = determine_motion_phase(units(1.5), 0, milli(51.0), 0);
    assert_eq!(fast, MotionPhase::Pan);
    let out = apply_motion_blur(&img, &state(fast, milli(51.0)), &config);
    assert_ne!(out.pixels, img.pixels);
}

#[test]
fn disabled_blur_is_identity() {
    let img = create_test_image(30, 30);
    let mut config = MotionBlurConfig::default();
    config.enabled = false;
    let out = apply_motion_blur(&img, &state(MotionPhase::Pan, milli(1000.0)), &config);
    assert_eq!(out.pixels, img.pixels);
}

#[test]
fn motion_state_during_zoom_in() {
    let events = vec![CursorEvent { x: 400_000, y: 300_000, timestamp: 1_000_000, event_type: EventType::LeftClick }];
    let layout = ContentLayout::calculate(1280, 720);
    let zc = ZoomConfig::default();
    let m = calculate_motion_state(700_000, &events, &zc, &layout, (0, 0), 1000);
    assert_eq!(m.phase, MotionPhase::ZoomIn);
    assert!(m.zoom_velocity > 0);
    assert_eq!((m.cursor_x, m.cursor_y), ((320 + 400) * 1000, (180 + 300) * 1000));
    let idle = calculate_motion_state(8_000_000, &events, &zc, &layout, (0, 0), 1000);
    assert_eq!(idle.phase, MotionPhase::Idle);
    assert_eq!(idle.zoom_velocity, 0);
}
