use glide::effects::{
    apply_rounded_corners, apply_zoom, corner_alpha, draw_shadow, is_inside_rounded_rect,
    parse_color, to_canvas, zoom_origin_milli, zoom_view, Background, ContentLayout,
    CORNER_RADIUS, OUTPUT_HEIGHT, OUTPUT_WIDTH,
};
use glide::frame::{blend_channel, crop, overlay, resize, Frame, ResizeFilter, Rgba};

fn create_test_image(width: u32, height: u32) -> Frame {
    let mut pixels = Vec::new();
    for y in 0..height {
        for x in 0..width {
            let r = (x * 255 / width) as u8;
            let g = (y * 255 / height) as u8;
            pixels.push(Rgba { r, g, b: 128, a: 255 });
        }
    }
    Frame { width, height, pixels }
}

fn zoom_units(z: f64) -> i64 {
    (z * 1_000_000.0).round() as i64
}

fn milli(v: f64) -> i64 {
    (v * 1000.0).round() as i64
}

#[test]
fn test_apply_zoom_no_zoom() {
    let img = create_test_image(1920, 1080);
    let result = apply_zoom(&img, zoom_units(1.0), milli(960.0), milli(540.0));
    assert_eq!((result.width, result.height), (1920, 1080));
    assert_eq!(img.get_pixel(960, 540), result.get_pixel(960, 540));
}

#[test]
fn test_apply_zoom_center_cursor() {
    let img = create_test_image(1920, 1080);
    let zoom = 1.8;
    let cursor_x = 960.0;
    let cursor_y = 540.0;
    let result = apply_zoom(&img, zoom_units(zoom), milli(cursor_x), milli(cursor_y));
    assert_eq!((result.width, result.height), (1920, 1080));

    let view_width = 1920.0 / zoom;
    let view_height = 1080.0 / zoom;
    let zoom_factor = 1.0 - 1.0 / zoom;
    let view_left = cursor_x * zoom_factor;
    let view_top = cursor_y * zoom_factor;
    println!("zoom_factor: {}", zoom_factor);
    println!("view_left: {}, view_top: {}", view_left, view_top);
    println!("view_width: {}, view_height: {}", view_width, view_height);
    assert!(view_width < 1920.0);
    assert!(view_height < 1080.0);
}

#[test]
fn test_apply_zoom_cursor_preserved() {
    let _img = create_test_image(1920, 1080);
    let zoom = 1.8;
    let cursor_x = 960.0;
    let cursor_y = 540.0;
    let zoom_factor = 1.0 - 1.0 / zoom;
    let view_left = cursor_x * zoom_factor;
    let view_top = cursor_y * zoom_factor;
    let view_width = 1920.0 / zoom;
    let view_height = 1080.0 / zoom;
    let cursor_in_crop_x: f64 = cursor_x - view_left;
    let cursor_in_crop_y: f64 = cursor_y - view_top;
    let cursor_after_x: f64 = cursor_in_crop_x * (1920.0 / view_width);
    let cursor_after_y: f64 = cursor_in_crop_y * (1080.0 / view_height);
    println!("Cursor should be at: ({}, {})", cursor_after_x, cursor_after_y);
    assert!((cursor_after_x - cursor_x).abs() < 1.0, "X position should be preserved");
    assert!((cursor_after_y - cursor_y).abs() < 1.0, "Y position should be preserved");
}

#[test]
fn test_apply_zoom_corner_cursor() {
    let img = create_test_image(1920, 1080);
    let zoom = 1.8;
    let cursor_x = 1800.0;
    let cursor_y = 900.0;
    let result = apply_zoom(&img, zoom_units(zoom), milli(cursor_x), milli(cursor_y));
    assert_eq!((result.width, result.height), (1920, 1080));

    let zoom_factor = 1.0 - 1.0 / zoom;
    let view_width = 1920.0 / zoom;
    let view_height = 1080.0 / zoom;
    let view_left = (cursor_x * zoom_factor).max(0.0).min(1920.0 - view_width);
    let view_top = (cursor_y * zoom_factor).max(0.0).min(1080.0 - view_height);
    println!("Corner zoom - view_left: {}, view_top: {}", view_left, view_top);
    assert!(view_left > 0.0, "View should be offset from left");
    assert!(view_top > 0.0, "View should be offset from top");
}

#[test]
fn test_apply_zoom_with_layout_offset() {
    let img = create_test_image(1920, 1080);
    let zoom = 1.8;
    let canvas_cursor_x = 660.0;
    let canvas_cursor_y = 490.0;
    let result = apply_zoom(&img, zoom_units(zoom), milli(canvas_cursor_x), milli(canvas_cursor_y));
    assert_eq!((result.width, result.height), (1920, 1080));

    let zoom_factor = 1.0 - 1.0 / zoom;
    let view_left = canvas_cursor_x * zoom_factor;
    let view_top = canvas_cursor_y * zoom_factor;
    println!(
        "Layout offset test: view_left={}, view_top={}, zoom_factor={}",
        view_left, view_top, zoom_factor
    );
    assert!(view_left > 0.0, "view_left should be positive");
    assert!(view_top > 0.0, "view_top should be positive");
}

#[test]
fn test_apply_zoom_zero_cursor() {
    let img = create_test_image(1920, 1080);
    let result = apply_zoom(&img, zoom_units(1.8), 0, 0);
    assert_eq!((result.width, result.height), (1920, 1080));
    let orig_pixel = img.get_pixel(0, 0);
    let zoomed_pixel = result.get_pixel(0, 0);
    println!("Zero cursor - orig: {:?}, zoomed: {:?}", orig_pixel, zoomed_pixel);
}

#[test]
fn test_fixed_point_zoom_is_symmetric() {
    let zoom = 1.8;
    let zoom_factor = 1.0 - 1.0 / zoom;
    let test_cases: [(f64, f64, &str); 5] = [
        (960.0, 540.0, "center"),
        (100.0, 100.0, "top-left area"),
        (1800.0, 900.0, "bottom-right area"),
        (660.0, 490.0, "offset position"),
        (1500.0, 300.0, "asymmetric position"),
    ];
    for (cursor_x, cursor_y, label) in test_cases {
        let view_left = zoom_origin_milli(milli(cursor_x), zoom_units(zoom)) as f64 / 1000.0;
        let view_top = zoom_origin_milli(milli(cursor_y), zoom_units(zoom)) as f64 / 1000.0;
        let x_ratio = if cursor_x > 0.0 { view_left / cursor_x } else { zoom_factor };
        let y_ratio = if cursor_y > 0.0 { view_top / cursor_y } else { zoom_factor };
        println!("{}: x_ratio={:.4}, y_ratio={:.4}", label, x_ratio, y_ratio);
        assert!((x_ratio - zoom_factor).abs() < 0.0001, "X ratio should equal zoom_factor");
        assert!((y_ratio - zoom_factor).abs() < 0.0001, "Y ratio should equal zoom_factor");
    }
}

#[test]
fn test_zoom_produces_magnification() {
    let img = create_test_image(1920, 1080);
    let result = apply_zoom(&img, zoom_units(1.8), milli(960.0), milli(540.0));
    let orig_pixel = img.get_pixel(200, 200);
    let zoomed_pixel = result.get_pixel(200, 200);
    println!("Magnification test:");
    println!("  Original (200,200): {:?}", orig_pixel);
    println!("  Zoomed (200,200): {:?}", zoomed_pixel);
    assert_ne!(orig_pixel, zoomed_pixel, "Zoom should change visible content at non-cursor positions");
}

#[test]
fn test_apply_zoom_produces_different_output() {
    let img = create_test_image(1920, 1080);
    let corner_pixel_no_zoom = img.get_pixel(100, 100);
    let zoomed = apply_zoom(&img, zoom_units(1.8), milli(500.0), milli(500.0));
    let corner_pixel_zoomed = zoomed.get_pixel(100, 100);
    println!("No zoom pixel at (100,100): {:?}", corner_pixel_no_zoom);
    println!("Zoomed pixel at (100,100): {:?}", corner_pixel_zoomed);
    assert_ne!(corner_pixel_no_zoom, corner_pixel_zoomed, "Zoom should change the visible content");
}

#[test]
fn zoom_view_clamps_at_edges() {
    // view = 1920 / 1.8 = 1066; origin of 1800 * (1 - 1/1.8) = 800, clamped to 854
    assert_eq!(zoom_view(1920, 1_800_000, 1_800_000), (800, 1066));
    assert_eq!(zoom_view(1920, 1_800_000, 1_919_000), (852, 1066));
    assert_eq!(zoom_view(1920, 1_800_000, -5_000), (0, 1066));
    assert_eq!(zoom_view(1920, 1_800_000, 3_000_000), (854, 1066));
}

#[test]
fn blend_channel_formula() {
    assert_eq!(blend_channel(0, 255, 255), 255);
    assert_eq!(blend_channel(200, 0, 0), 200);
    assert_eq!(blend_channel(100, 200, 51), 120);
    assert_eq!(blend_channel(10, 250, 128), 130);
}

#[test]
fn corner_alpha_values() {
    // radius 12 on a 100x100 image: corner centre (12, 12)
    assert_eq!(corner_alpha(0, 0, 100, 100, 12), 0);
    assert_eq!(corner_alpha(12, 12, 100, 100, 12), 255);
    assert_eq!(corner_alpha(50, 50, 100, 100, 12), 255);
    assert_eq!(corner_alpha(12, 1, 100, 100, 12), 255);
    // distance 12: coverage 0.5
    assert_eq!(corner_alpha(12, 0, 100, 100, 12), 127);
    assert_eq!(corner_alpha(99, 99, 100, 100, 12), 0);
}

#[test]
fn rounded_corners_on_solid_alpha() {
    let mut img = Frame::solid(100, 100, Rgba { r: 1, g: 2, b: 3, a: 200 });
    apply_rounded_corners(&mut img, CORNER_RADIUS);
    assert_eq!(img.get_pixel(0, 0).a, 0);
    assert_eq!(img.get_pixel(3, 3).a, 0);
    assert_eq!(img.get_pixel(5, 5).a, 200);
    assert_eq!(img.get_pixel(12, 12).a, 200);
    assert_eq!(img.get_pixel(12, 0).a, (200 * 127 / 255) as u8);
    assert_eq!(img.get_pixel(99, 0).a, 0);
    assert_eq!(img.get_pixel(0, 99).a, 0);
    assert_eq!(img.get_pixel(50, 50), Rgba { r: 1, g: 2, b: 3, a: 200 });
}

#[test]
fn inside_rounded_rect_checks_corners() {
    assert!(!is_inside_rounded_rect(-1, 5, 40, 40, 10));
    assert!(!is_inside_rounded_rect(40, 5, 40, 40, 10));
    assert!(!is_inside_rounded_rect(0, 0, 40, 40, 10));
    assert!(is_inside_rounded_rect(10, 0, 40, 40, 10));
    assert!(is_inside_rounded_rect(20, 20, 40, 40, 10));
    assert!(!is_inside_rounded_rect(39, 39, 40, 40, 10));
}

#[test]
fn shadow_darkens_only_below_content() {
    let white = Rgba { r: 255, g: 255, b: 255, a: 255 };
    let mut canvas = Frame::solid(200, 200, white);
    draw_shadow(&mut canvas, 50, 50, 60, 60, 12);
    // centre of the shadowed rectangle gets every layer
    let centre = canvas.get_pixel(88, 88);
    assert!(centre.r < 255);
    assert_eq!(centre.a, 255);
    // far away: untouched
    assert_eq!(canvas.get_pixel(5, 5), white);
    assert_eq!(canvas.get_pixel(199, 5), white);
}

#[test]
fn shadow_outside_canvas_leaves_it() {
    let mut canvas = Frame::solid(10, 10, Rgba { r: 255, g: 255, b: 255, a: 255 });
    draw_shadow(&mut canvas, -100, -100, 1, 1, 0);
    assert_eq!(canvas.get_pixel(5, 5), Rgba { r: 255, g: 255, b: 255, a: 255 });
}

#[test]
fn layout_small_content_is_not_enlarged() {
    let l = ContentLayout::calculate(1280, 720);
    assert_eq!((l.scale_num, l.scale_den), (1, 1));
    assert_eq!((l.scaled_width, l.scaled_height), (1280, 720));
    assert_eq!((l.offset_x, l.offset_y), (320, 180));
}

#[test]
fn layout_large_content_fits_margins() {
    let l = ContentLayout::calculate(2560, 1600);
    assert_eq!((l.scaled_width, l.scaled_height), (1408, 880));
    assert_eq!((l.offset_x, l.offset_y), (256, 100));
    let wide = ContentLayout::calculate(3840, 1080);
    assert_eq!((wide.scaled_width, wide.scaled_height), (1720, 483));
    assert_eq!((wide.offset_x, wide.offset_y), (100, 298));
}

#[test]
fn event_to_canvas_transform() {
    let l = ContentLayout::calculate(2560, 1600);
    // (400, 300) points at scale 2 -> (800, 600) px -> scaled by 880/1600 -> (440, 330)
    let (x, y) = to_canvas(400_000, 300_000, 2000, (0, 0), &l);
    assert_eq!((x, y), ((256 + 440) * 1000, (100 + 330) * 1000));
    // a window offset of (10, 20) points moves the point back
    let (x, y) = to_canvas(400_000, 300_000, 2000, (10, 20), &l);
    assert_eq!((x, y), (256_000 + 429_000, 100_000 + 308_000));
}

#[test]
fn parse_hex_colors() {
    assert_eq!(parse_color("#1a1a2e"), Some(Rgba { r: 26, g: 26, b: 46, a: 255 }));
    assert_eq!(parse_color("FF0080"), Some(Rgba { r: 255, g: 0, b: 128, a: 255 }));
    assert_eq!(parse_color("##00ff00"), Some(Rgba { r: 0, g: 255, b: 0, a: 255 }));
    assert_eq!(parse_color("#12345"), None);
    assert_eq!(parse_color("#12345g"), None);
    assert_eq!(parse_color("background.png"), None);
}

#[test]
fn background_parse_and_canvas() {
    match Background::parse(None) {
        Some(Background::Color(c)) => assert_eq!(c, Rgba { r: 26, g: 26, b: 46, a: 255 }),
        _ => panic!("default background should be a color"),
    }
    assert!(Background::parse(Some("wallpaper.jpg")).is_none());
    let bg = Background::parse(Some("#ffffff")).unwrap();
    let canvas = bg.create_canvas();
    assert_eq!((canvas.width, canvas.height), (OUTPUT_WIDTH, OUTPUT_HEIGHT));
    assert_eq!(canvas.get_pixel(1000, 500), Rgba { r: 255, g: 255, b: 255, a: 255 });
}

#[test]
fn resize_changes_size_and_keeps_same_size() {
    let img = create_test_image(2, 2);
    let up = resize(&img, 4, 4, ResizeFilter::Lanczos3);
    assert_eq!((up.width, up.height, up.pixels.len()), (4, 4, 16));
    let same = resize(&img, 2, 2, ResizeFilter::Triangle);
    assert_eq!(same.pixels, img.pixels);
}

#[test]
fn crop_takes_rectangle() {
    let img = create_test_image(10, 10);
    let c = crop(&img, 2, 3, 4, 5);
    assert_eq!((c.width, c.height), (4, 5));
    assert_eq!(c.get_pixel(0, 0), img.get_pixel(2, 3));
    assert_eq!(c.get_pixel(3, 4), img.get_pixel(5, 7));
}

#[test]
fn overlay_blends_by_alpha() {
    let mut canvas = Frame::solid(4, 4, Rgba { r: 0, g: 0, b: 0, a: 255 });
    let top = Frame::solid(2, 2, Rgba { r: 255, g: 255, b: 255, a: 255 });
    overlay(&mut canvas, &top, 1, 1);
    assert_eq!(canvas.get_pixel(1, 1), Rgba { r: 255, g: 255, b: 255, a: 255 });
    assert_eq!(canvas.get_pixel(0, 0), Rgba { r: 0, g: 0, b: 0, a: 255 });
    let half = Frame::solid(1, 1, Rgba { r: 255, g: 255, b: 255, a: 51 });
    overlay(&mut canvas, &half, 3, 3);
    assert_eq!(canvas.get_pixel(3, 3), Rgba { r: 51, g: 51, b: 51, a: 255 });
}

#[test]
fn background_image_fills_canvas() {
    let img = create_test_image(4, 2);
    match Background::from_image(&img) {
        Background::Image(f) => {
            assert_eq!((f.width, f.height, f.pixels.len()), (1920, 1080, 1920 * 1080));
            // left to right the red channel still rises
            assert!(f.get_pixel(100, 540).r < f.get_pixel(1800, 540).r);
        }
        Background::Color(_) => panic!("expected an image background"),
    }
}
