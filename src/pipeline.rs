//! The pipeline driver's arithmetic (trim, frame counts, timestamps, source
//! frame choice) and the per-frame compositor.
use vstd::prelude::*;
use crate::click_highlight::{
    ActiveRipple,
    ClickHighlightConfig,
    active_ripples,
    draw_click_highlights,
    get_active_ripples,
    ripple_ok,
    ripples_layer,
};
use crate::cursor::{
    CursorConfig,
    activity_opacity,
    cursor_pixel,
    cursor_size,
    draw_cursor,
    get_smoothed_cursor,
    smoothed_position,
};
use crate::effects::{
    Background,
    ContentLayout,
    CORNER_RADIUS,
    OUTPUT_HEIGHT,
    OUTPUT_WIDTH,
    apply_rounded_corners,
    apply_zoom,
    clamped_radius,
    corner_alpha_spec,
    draw_shadow,
    rounded_pixel,
    shadow_layers,
    to_canvas,
    to_canvas_spec,
    zoom_origin,
    zoom_view_size,
};
use crate::events::MAX_TIME;
use crate::fixed::{SUBUNITS, UNIT};
use crate::frame::{
    Frame,
    Image,
    Rgba,
    MAX_DIM,
    ResizeFilter,
    crop_pixels,
    overlay,
    overlay_pixel,
    resampled,
    resize,
};
use crate::metadata::RecordingMetadata;
use crate::motion_blur::{
    MOTION_DT,
    MotionBlurConfig,
    apply_motion_blur,
    calculate_motion_state,
    lemma_to_canvas_bounds,
    motion_blurred,
    motion_state_spec,
};
use crate::zoom::{ZoomConfig, calculate_zoom, time_ok, trajectory};

verus! {

/// Output frame rate.
pub const TARGET_FPS: i64 = 60;

/// Why a run cannot start.
#[derive(Clone, Copy, Debug, PartialEq, Eq, Structural)]
pub enum PipelineError {
    /// The trims remove the whole video.
    TrimExceedsDuration,
    /// No source frame could be read.
    NoSourceFrames,
}

/// Timing of a run, in microseconds.
#[derive(Clone, Copy, Debug, PartialEq, Eq, Structural)]
pub struct TimingPlan {
    /// Trim removed from the start.
    pub trim_start: i64,
    /// Duration left after both trims.
    pub trimmed_duration: i64,
    /// Offset from video time to event time.
    pub time_offset: i64,
    /// Number of output frames at `TARGET_FPS`.
    pub output_frame_count: u64,
}

pub open spec fn trim_amount(t: Option<i64>) -> int {
    match t {
        Some(v) => if v > 0 {
            v as int
        } else {
            0
        },
        None => 0,
    }
}

/// Offset from video time to event time before trimming: the recorded lead
/// when known, else the approximation from the durations, else 0.
pub open spec fn base_offset(video: int, lead: int, tracking: int) -> int {
    if lead > 0 {
        lead
    } else if tracking > 0 {
        tracking - video
    } else {
        0
    }
}

/// Output frames for a duration: `ceil(duration · 60)`.
pub open spec fn output_frames_spec(duration: int) -> int {
    (duration * TARGET_FPS + 999_999) / 1_000_000
}

/// Plan a run: trims (negative ones count as 0), the trimmed duration, the
/// output frame count and the offset between video and event time. Fails
/// when the trims leave nothing.
pub fn plan_timing(
    video_duration: i64,
    trim_start: Option<i64>,
    trim_end: Option<i64>,
    cursor_to_video_offset: i64,
    cursor_tracking_duration: i64,
) -> (r: Result<TimingPlan, PipelineError>)
    requires
        0 <= video_duration <= MAX_TIME,
        trim_start matches Some(v) ==> -MAX_TIME <= v <= MAX_TIME,
        trim_end matches Some(v) ==> -MAX_TIME <= v <= MAX_TIME,
        -MAX_TIME <= cursor_to_video_offset <= MAX_TIME,
        -MAX_TIME <= cursor_tracking_duration <= MAX_TIME,
    ensures
        video_duration - trim_amount(trim_start) - trim_amount(trim_end) <= 0 <==> r is Err,
        r matches Err(e) ==> e == PipelineError::TrimExceedsDuration,
        r matches Ok(p) ==> {
            &&& p.trim_start == trim_amount(trim_start)
            &&& p.trimmed_duration == video_duration - trim_amount(trim_start) - trim_amount(trim_end)
            &&& p.output_frame_count == output_frames_spec(p.trimmed_duration as int)
            &&& p.time_offset == base_offset(
                video_duration as int,
                cursor_to_video_offset as int,
                cursor_tracking_duration as int,
            ) + p.trim_start
        },
{
    let ts = match trim_start {
        Some(v) => if v > 0 {
            v
        } else {
            0
        },
        None => 0,
    };
    let te = match trim_end {
        Some(v) => if v > 0 {
            v
        } else {
            0
        },
        None => 0,
    };
    let trimmed = video_duration - ts - te;
    if trimmed <= 0 {
        return Err(PipelineError::TrimExceedsDuration);
    }
    let base = if cursor_to_video_offset > 0 {
        cursor_to_video_offset
    } else if cursor_tracking_duration > 0 {
        cursor_tracking_duration - video_duration
    } else {
        0
    };
    let frames = ((trimmed as u64) * (TARGET_FPS as u64) + 999_999) / 1_000_000;
    Ok(TimingPlan { trim_start: ts, trimmed_duration: trimmed, time_offset: base + ts, output_frame_count: frames })
}

/// Video time of output frame `k` (counted from 1): `(k − 1) / 60` seconds,
/// in microseconds, rounded down.
pub open spec fn frame_time_spec(k: int) -> int {
    (k - 1) * 1_000_000 / TARGET_FPS as int
}

/// Event time of output frame `k`: its video time plus the offset.
pub fn frame_timestamp(k: u64, time_offset: i64) -> (r: i64)
    requires
        1 <= k <= 1_000_000_000_000,
        -MAX_TIME <= time_offset <= MAX_TIME,
    ensures
        r == frame_time_spec(k as int) + time_offset,
{
    (((k - 1) * 1_000_000 / (TARGET_FPS as u64)) as i64) + time_offset
}

/// Index of the source frame shown by output frame `k`: the frame under
/// video time `(k − 1) / 60` at `frame_count / duration` frames per second,
/// capped at the last frame.
pub open spec fn source_index_spec(k: int, frame_count: int, duration: int) -> int {
    let i = (k - 1) * frame_count * 1_000_000 / (TARGET_FPS * duration);
    if i < frame_count - 1 {
        i
    } else {
        frame_count - 1
    }
}

/// The source frame to show for output frame `k`.
pub fn source_frame_index(k: u64, frame_count: u64, trimmed_duration: i64) -> (r: u64)
    requires
        1 <= k <= 1_000_000_000_000,
        1 <= frame_count <= 1_000_000_000_000,
        0 < trimmed_duration <= MAX_TIME,
    ensures
        r == source_index_spec(k as int, frame_count as int, trimmed_duration as int),
        r < frame_count,
{
    proof {
        assert(0 <= (k - 1) * frame_count <= 1_000_000_000_000int * 1_000_000_000_000) by (nonlinear_arith)
            requires
                0 <= k - 1 <= 1_000_000_000_000,
                0 <= frame_count <= 1_000_000_000_000,
        ;
    }
    let prod = ((k - 1) as u128) * (frame_count as u128);
    let num = prod * 1_000_000;
    let d = trimmed_duration as u128;
    assert(0 < d <= 1_000_000_000_000);
    let den = 60 * d;
    assert(den == TARGET_FPS * trimmed_duration);
    let i = num / den;
    if i < (frame_count - 1) as u128 {
        i as u64
    } else {
        frame_count - 1
    }
}

/// Pixels of a fresh canvas showing `bg`.
pub open spec fn background_pixels(bg: Background) -> Seq<Rgba> {
    match bg {
        Background::Color(c) => Seq::new((OUTPUT_WIDTH * OUTPUT_HEIGHT) as nat, |i: int| c),
        Background::Image(f) => f.pixels@,
    }
}

/// The source frame scaled to the layout with rounded corners.
pub open spec fn content_spec(src: Image, l: ContentLayout) -> Seq<Rgba> {
    let sw = l.scaled_width as int;
    let sh = l.scaled_height as int;
    let res = resampled(src.pixels, src.width as int, src.height as int, sw, sh, ResizeFilter::Lanczos3);
    Seq::new(
        res.len(),
        |p: int|
            rounded_pixel(
                res[p],
                corner_alpha_spec(p % sw, p / sw, sw, sh, clamped_radius(CORNER_RADIUS as int, sw, sh)),
            ),
    )
}

/// Event-space point `(x, y)` in canvas space.
pub open spec fn canvas_x(x: int, m: RecordingMetadata, l: ContentLayout) -> int {
    to_canvas_spec(
        x,
        m.scale_factor as int,
        m.window_offset.0 as int,
        l.offset_x as int,
        l.scale_num as int,
        l.scale_den as int,
    )
}

pub open spec fn canvas_y(y: int, m: RecordingMetadata, l: ContentLayout) -> int {
    to_canvas_spec(
        y,
        m.scale_factor as int,
        m.window_offset.1 as int,
        l.offset_y as int,
        l.scale_num as int,
        l.scale_den as int,
    )
}

/// The canvas after the cursor, when enabled and visible (opacity over 0.01).
pub open spec fn with_cursor(
    canvas: Seq<Rgba>,
    t: int,
    m: RecordingMetadata,
    l: ContentLayout,
    cc: Option<CursorConfig>,
    sprite: Image,
) -> Seq<Rgba> {
    match cc {
        None => canvas,
        Some(c) => {
            let op = activity_opacity(m.cursor_events@, t, c);
            if op > 10_000 {
                let pos = smoothed_position(m.cursor_events@, t, c.smooth_window as int);
                let scale = c.cursor_scale * l.scale_num / l.scale_den as int;
                let size = cursor_size(sprite.width as int, sprite.height as int, scale);
                Seq::new(
                    canvas.len(),
                    |q: int|
                        cursor_pixel(
                            canvas[q],
                            q % OUTPUT_WIDTH as int,
                            q / OUTPUT_WIDTH as int,
                            resampled(
                                sprite.pixels,
                                sprite.width as int,
                                sprite.height as int,
                                size.0,
                                size.1,
                                ResizeFilter::Lanczos3,
                            ),
                            size.0,
                            size.1,
                            canvas_x(pos.0, m, l) / SUBUNITS as int,
                            canvas_y(pos.1, m, l) / SUBUNITS as int,
                            op,
                        ),
                )
            } else {
                canvas
            }
        },
    }
}

/// A ripple moved to canvas space.
pub open spec fn canvas_ripple(r: ActiveRipple, m: RecordingMetadata, l: ContentLayout) -> ActiveRipple {
    ActiveRipple {
        x: canvas_x(r.x as int, m, l) as i64,
        y: canvas_y(r.y as int, m, l) as i64,
        progress: r.progress,
    }
}

/// The canvas after the click ripples, when enabled.
pub open spec fn with_ripples(
    canvas: Seq<Rgba>,
    t: int,
    m: RecordingMetadata,
    l: ContentLayout,
    hc: ClickHighlightConfig,
) -> Seq<Rgba> {
    if hc.enabled {
        let rs = active_ripples(m.cursor_events@, t, hc.duration as int);
        ripples_layer(
            canvas,
            OUTPUT_WIDTH as int,
            Seq::new(rs.len(), |j: int| canvas_ripple(rs[j], m, l)),
            hc,
        )
    } else {
        canvas
    }
}

/// The canvas after the zoom, when the trajectory's zoom exceeds 1.01.
pub open spec fn with_zoom(
    canvas: Seq<Rgba>,
    t: int,
    m: RecordingMetadata,
    l: ContentLayout,
    zc: ZoomConfig,
) -> Seq<Rgba> {
    let tr = trajectory(m.cursor_events@, zc, t);
    if tr.0 > 1_010_000 {
        let w = OUTPUT_WIDTH as int;
        let h = OUTPUT_HEIGHT as int;
        let vw = zoom_view_size(w, tr.0);
        let vh = zoom_view_size(h, tr.0);
        resampled(
            crop_pixels(
                Image { width: OUTPUT_WIDTH, height: OUTPUT_HEIGHT, pixels: canvas },
                zoom_origin(w, tr.0, canvas_x(tr.1, m, l)),
                zoom_origin(h, tr.0, canvas_y(tr.2, m, l)),
                vw,
                vh,
            ),
            vw,
            vh,
            w,
            h,
            ResizeFilter::Triangle,
        )
    } else {
        canvas
    }
}

/// The composited output frame at event time `t`: background, shadow,
/// content with rounded corners, cursor, ripples, zoom, then motion blur.
pub open spec fn compose_spec(
    t: int,
    src: Image,
    m: RecordingMetadata,
    l: ContentLayout,
    zc: ZoomConfig,
    cc: Option<CursorConfig>,
    bc: MotionBlurConfig,
    hc: ClickHighlightConfig,
    bg: Background,
    sprite: Image,
) -> Seq<Rgba> {
    let sw = l.scaled_width as int;
    let sh = l.scaled_height as int;
    let c0 = background_pixels(bg);
    let c1 = shadow_layers(
        c0,
        OUTPUT_WIDTH as int,
        l.offset_x as int,
        l.offset_y as int,
        sw,
        sh,
        CORNER_RADIUS as int,
        20,
    );
    let content = Image { width: l.scaled_width, height: l.scaled_height, pixels: content_spec(src, l) };
    let c2 = Seq::new(
        c1.len(),
        |p: int|
            overlay_pixel(
                c1[p],
                content,
                l.offset_x as int,
                l.offset_y as int,
                p % OUTPUT_WIDTH as int,
                p / OUTPUT_WIDTH as int,
            ),
    );
    let c3 = with_cursor(c2, t, m, l, cc, sprite);
    let c4 = with_ripples(c3, t, m, l, hc);
    let c5 = with_zoom(c4, t, m, l, zc);
    motion_blurred(
        Image { width: OUTPUT_WIDTH, height: OUTPUT_HEIGHT, pixels: c5 },
        motion_state_spec(
            m.cursor_events@,
            zc,
            l,
            m.window_offset,
            m.scale_factor as int,
            t,
        ),
        bc,
    )
}

fn ripples_to_canvas(
    ripples: &Vec<ActiveRipple>,
    metadata: &RecordingMetadata,
    layout: &ContentLayout,
) -> (r: Vec<ActiveRipple>)
    requires
        metadata.wf(),
        layout.wf(),
        forall|i: int|
            0 <= i < ripples.len() ==> -crate::events::MAX_COORD <= #[trigger] ripples@[i].x
                <= crate::events::MAX_COORD && -crate::events::MAX_COORD <= ripples@[i].y
                <= crate::events::MAX_COORD && 0 <= ripples@[i].progress <= UNIT,
    ensures
        r@ == Seq::new(ripples@.len(), |j: int| canvas_ripple(ripples@[j], *metadata, *layout)),
        forall|i: int| 0 <= i < r.len() ==> #[trigger] ripple_ok(r@[i]),
{
    let mut out: Vec<ActiveRipple> = Vec::new();
    let mut i: usize = 0;
    while i < ripples.len()
        invariant
            i <= ripples.len(),
            metadata.wf(),
            layout.wf(),
            forall|j: int|
                0 <= j < ripples.len() ==> -crate::events::MAX_COORD <= #[trigger] ripples@[j].x
                    <= crate::events::MAX_COORD && -crate::events::MAX_COORD <= ripples@[j].y
                    <= crate::events::MAX_COORD && 0 <= ripples@[j].progress <= UNIT,
            out@ == Seq::new(i as nat, |j: int| canvas_ripple(ripples@[j], *metadata, *layout)),
            forall|j: int| 0 <= j < out.len() ==> #[trigger] ripple_ok(out@[j]),
        decreases ripples.len() - i,
    {
        let rp = ripples[i];
        assert(-crate::events::MAX_COORD <= ripples@[i as int].x <= crate::events::MAX_COORD);
        let (x, y) = to_canvas(rp.x, rp.y, metadata.scale_factor, metadata.window_offset, layout);
        proof {
            lemma_to_canvas_bounds(
                rp.x as int,
                metadata.scale_factor as int,
                metadata.window_offset.0 as int,
                layout.offset_x as int,
                layout.scale_num as int,
                layout.scale_den as int,
            );
            lemma_to_canvas_bounds(
                rp.y as int,
                metadata.scale_factor as int,
                metadata.window_offset.1 as int,
                layout.offset_y as int,
                layout.scale_num as int,
                layout.scale_den as int,
            );
        }
        let ghost before = out@;
        out.push(ActiveRipple { x, y, progress: rp.progress });
        assert(out@ =~= Seq::new((i + 1) as nat, |j: int| canvas_ripple(ripples@[j], *metadata, *layout)));
        assert forall|j: int| 0 <= j < out.len() implies #[trigger] ripple_ok(out@[j]) by {
            if j < i {
                assert(out@[j] == before[j]);
            }
        }
        i = i + 1;
    }
    out
}

/// Composite output frame at event time `t` from the selected source frame:
/// background, drop shadow, scaled content with rounded corners, cursor,
/// click ripples, zoom toward the trajectory's focus, then motion blur.
pub fn compose_frame(
    timestamp: i64,
    source: &Frame,
    metadata: &RecordingMetadata,
    layout: &ContentLayout,
    zoom_config: &ZoomConfig,
    cursor_config: Option<CursorConfig>,
    motion_blur_config: &MotionBlurConfig,
    click_highlight_config: &ClickHighlightConfig,
    background: &Background,
    cursor_sprite: &Frame,
) -> (r: Frame)
    requires
        source.wf(),
        metadata.wf(),
        layout.wf(),
        zoom_config.wf(),
        cursor_config matches Some(c) ==> c.wf() && cursor_size(
            cursor_sprite.width as int,
            cursor_sprite.height as int,
            c.cursor_scale * layout.scale_num / layout.scale_den as int,
        ).0 <= MAX_DIM,
        motion_blur_config.wf(),
        click_highlight_config.wf(),
        background.wf(),
        background matches Background::Image(f) ==> f.width == OUTPUT_WIDTH && f.height
            == OUTPUT_HEIGHT,
        cursor_sprite.wf(),
        0 < cursor_sprite.height,
        time_ok(timestamp - MOTION_DT),
        time_ok(timestamp + MOTION_DT),
    ensures
        r.wf(),
        r.width == OUTPUT_WIDTH,
        r.height == OUTPUT_HEIGHT,
        r.pixels@ == compose_spec(
            timestamp as int,
            source@,
            *metadata,
            *layout,
            *zoom_config,
            cursor_config,
            *motion_blur_config,
            *click_highlight_config,
            *background,
            cursor_sprite@,
        ),
{
    let t = timestamp;
    let events = &metadata.cursor_events;
    let mut canvas = background.create_canvas();
    assert(canvas.pixels@ =~= background_pixels(*background));
    draw_shadow(
        &mut canvas,
        layout.offset_x as i64,
        layout.offset_y as i64,
        layout.scaled_width,
        layout.scaled_height,
        CORNER_RADIUS,
    );
    let mut content = resize(source, layout.scaled_width, layout.scaled_height, ResizeFilter::Lanczos3);
    apply_rounded_corners(&mut content, CORNER_RADIUS);
    assert(content.pixels@ =~= content_spec(source@, *layout));
    let ghost c1 = canvas.pixels@;
    overlay(&mut canvas, &content, layout.offset_x as i64, layout.offset_y as i64);
    assert(canvas.pixels@ =~= Seq::new(
        c1.len(),
        |p: int|
            overlay_pixel(
                c1[p],
                content@,
                layout.offset_x as int,
                layout.offset_y as int,
                p % OUTPUT_WIDTH as int,
                p / OUTPUT_WIDTH as int,
            ),
    ));
    let ghost c2 = canvas.pixels@;
    if let Some(cc) = cursor_config {
        let state = get_smoothed_cursor(t, events, &cc);
        if state.opacity > 10_000 {
            let (cx, cy) = to_canvas(state.x, state.y, metadata.scale_factor, metadata.window_offset, layout);
            proof {
                lemma_to_canvas_bounds(
                    state.x as int,
                    metadata.scale_factor as int,
                    metadata.window_offset.0 as int,
                    layout.offset_x as int,
                    layout.scale_num as int,
                    layout.scale_den as int,
                );
                lemma_to_canvas_bounds(
                    state.y as int,
                    metadata.scale_factor as int,
                    metadata.window_offset.1 as int,
                    layout.offset_y as int,
                    layout.scale_num as int,
                    layout.scale_den as int,
                );
                assert(0 <= cc.cursor_scale * layout.scale_num <= cc.cursor_scale * layout.scale_den) by (
                nonlinear_arith)
                    requires
                        0 <= cc.cursor_scale,
                        0 <= layout.scale_num <= layout.scale_den,
                ;
                assert(cc.cursor_scale * layout.scale_den <= 100_000_000int * 16384) by (nonlinear_arith)
                    requires
                        0 <= cc.cursor_scale <= 100_000_000,
                        0 <= layout.scale_den <= 16384,
                ;
                vstd::arithmetic::div_mod::lemma_div_is_ordered(
                    cc.cursor_scale * layout.scale_num,
                    cc.cursor_scale * layout.scale_den,
                    layout.scale_den as int,
                );
                vstd::arithmetic::div_mod::lemma_div_by_multiple(cc.cursor_scale as int, layout.scale_den as int);
                vstd::arithmetic::div_mod::lemma_div_pos_is_pos(cc.cursor_scale * layout.scale_num, layout.scale_den as int);
            }
            let scale = cc.cursor_scale * (layout.scale_num as i64) / (layout.scale_den as i64);
            draw_cursor(&mut canvas, cursor_sprite, cx, cy, scale, state.opacity);
        }
    }
    assert(canvas.pixels@ =~= with_cursor(c2, t as int, *metadata, *layout, cursor_config, cursor_sprite@));
    let ghost c3 = canvas.pixels@;
    if click_highlight_config.enabled {
        let ripples = get_active_ripples(t, events, click_highlight_config);
        proof {
            crate::click_highlight::lemma_ripples_in_range(
                metadata.cursor_events@,
                t as int,
                click_highlight_config.duration as int,
            );
        }
        let mapped = ripples_to_canvas(&ripples, metadata, layout);
        draw_click_highlights(&mut canvas, &mapped, click_highlight_config);
    }
    assert(canvas.pixels@ =~= with_ripples(c3, t as int, *metadata, *layout, *click_highlight_config));
    let ghost c4 = canvas.pixels@;
    let (zoom, fx, fy) = calculate_zoom(t, events, zoom_config);
    let (cfx, cfy) = to_canvas(fx, fy, metadata.scale_factor, metadata.window_offset, layout);
    proof {
        lemma_to_canvas_bounds(
            fx as int,
            metadata.scale_factor as int,
            metadata.window_offset.0 as int,
            layout.offset_x as int,
            layout.scale_num as int,
            layout.scale_den as int,
        );
        lemma_to_canvas_bounds(
            fy as int,
            metadata.scale_factor as int,
            metadata.window_offset.1 as int,
            layout.offset_y as int,
            layout.scale_num as int,
            layout.scale_den as int,
        );
    }
    let zoomed = if zoom > 1_010_000 {
        apply_zoom(&canvas, zoom, cfx, cfy)
    } else {
        canvas
    };
    assert(zoomed.pixels@ =~= with_zoom(c4, t as int, *metadata, *layout, *zoom_config));
    let motion = calculate_motion_state(
        t,
        events,
        zoom_config,
        layout,
        metadata.window_offset,
        metadata.scale_factor,
    );
    apply_motion_blur(&zoomed, &motion, motion_blur_config)
}

/// Determinism: two frames composited at the same time from the same
/// source frame, metadata, layout, configurations, background and sprite are
/// identical, whatever order or thread computed them.
pub proof fn lemma_compose_deterministic(
    r1: Seq<Rgba>,
    r2: Seq<Rgba>,
    t: int,
    src: Image,
    m: RecordingMetadata,
    l: ContentLayout,
    zc: ZoomConfig,
    cc: Option<CursorConfig>,
    bc: MotionBlurConfig,
    hc: ClickHighlightConfig,
    bg: Background,
    sprite: Image,
)
    requires
        r1 == compose_spec(t, src, m, l, zc, cc, bc, hc, bg, sprite),
        r2 == compose_spec(t, src, m, l, zc, cc, bc, hc, bg, sprite),
    ensures
        r1 == r2,
{
}

} // verus!
