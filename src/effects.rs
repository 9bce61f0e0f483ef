//! Compositing effects: rounded corners, the drop shadow, content layout,
//! the background and the fixed-point zoom.
use vstd::prelude::*;
use vstd::string::StringSliceAdditionalSpecFns;
use crate::fixed::{floor_div, isqrt_ceil, sqrt_ceil, SUBUNITS, UNIT};
use crate::frame::{
    Frame,
    Rgba,
    MAX_DIM,
    blend_pixel,
    blend_pixel_spec,
    lemma_coords_of_index,
    crop,
    resize,
    ResizeFilter,
    resampled,
    crop_pixels,
    filled,
    resize_to_fill,
};
use crate::zoom::MAX_ZOOM;

verus! {

/// Largest magnitude of a canvas coordinate, in thousandths of a pixel.
pub const MAX_CANVAS_COORD: i64 = 1_000_000_000_000_000;

/// Output canvas width.
pub const OUTPUT_WIDTH: u32 = 1920;

/// Output canvas height.
pub const OUTPUT_HEIGHT: u32 = 1080;

/// Corner radius of the inset content.
pub const CORNER_RADIUS: u32 = 12;

/// Offset of the shadow below and right of the content.
pub const SHADOW_OFFSET: i64 = 8;

/// Number of shadow layers.
pub const SHADOW_BLUR_RADIUS: u32 = 20;

/// Alpha of the shadow color (black).
pub const SHADOW_ALPHA: u32 = 80;

/// Whether `(x, y)` lies in the square of the corner centred at `(cx, cy)`.
pub open spec fn in_corner(x: int, y: int, w: int, h: int, r: int, cx: int, cy: int) -> bool {
    &&& ((x <= r && cx == r) || (x >= w - r - 1 && cx == w - r - 1))
    &&& ((y <= r && cy == r) || (y >= h - r - 1 && cy == h - r - 1))
}

/// Anti-aliased coverage `clamp(r − d + 0.5, 0, 1) · 255`, rounded down, for
/// a squared distance `d2`.
pub open spec fn edge_alpha(d2: int, r: int) -> int {
    let v = (510 * r + 255 - sqrt_ceil(260100 * d2)) / 2;
    if v < 0 {
        0
    } else if v > 255 {
        255
    } else {
        v
    }
}

/// What the corner centred at `(cx, cy)` decides for `(x, y)`, if anything:
/// outside the arc 0, on its last pixel and a half the edge coverage.
pub open spec fn corner_check(x: int, y: int, w: int, h: int, r: int, cx: int, cy: int) -> Option<int> {
    if in_corner(x, y, w, h, r, cx, cy) {
        let d2 = (x - cx) * (x - cx) + (y - cy) * (y - cy);
        if d2 > r * r {
            Some(0int)
        } else if 2 * r < 3 || 4 * d2 > (2 * r - 3) * (2 * r - 3) {
            Some(edge_alpha(d2, r))
        } else {
            None
        }
    } else {
        None
    }
}

/// Alpha multiplier (0–255) of pixel `(x, y)`: the first corner that decides,
/// in the order top-left, top-right, bottom-left, bottom-right; else 255.
pub open spec fn corner_alpha_spec(x: int, y: int, w: int, h: int, r: int) -> int {
    match corner_check(x, y, w, h, r, r, r) {
        Some(v) => v,
        None => match corner_check(x, y, w, h, r, w - r - 1, r) {
            Some(v) => v,
            None => match corner_check(x, y, w, h, r, r, h - r - 1) {
                Some(v) => v,
                None => match corner_check(x, y, w, h, r, w - r - 1, h - r - 1) {
                    Some(v) => v,
                    None => 255,
                },
            },
        },
    }
}

/// The radius actually used on a `w × h` image.
pub open spec fn clamped_radius(r: int, w: int, h: int) -> int {
    let a = if r < w / 2 {
        r
    } else {
        w / 2
    };
    if a < h / 2 {
        a
    } else {
        h / 2
    }
}

/// Pixel after multiplying its alpha by the multiplier `m` (0–255).
pub open spec fn rounded_pixel(p: Rgba, m: int) -> Rgba {
    if m < 255 {
        Rgba { a: (p.a * m / 255) as u8, ..p }
    } else {
        p
    }
}

fn corner_check_exec(x: u32, y: u32, w: u32, h: u32, r: u32, cx: u32, cy: u32) -> (res: Option<u8>)
    requires
        x < w <= MAX_DIM,
        y < h <= MAX_DIM,
        r <= w / 2,
        r <= h / 2,
        cx < w,
        cy < h,
    ensures
        res matches Some(v) ==> corner_check(x as int, y as int, w as int, h as int, r as int, cx as int, cy as int) == Some(v as int),
        res is None ==> corner_check(x as int, y as int, w as int, h as int, r as int, cx as int, cy as int) is None,
{
    let in_x = (x <= r && cx == r) || (x >= w - r - 1 && cx == w - r - 1);
    let in_y = (y <= r && cy == r) || (y >= h - r - 1 && cy == h - r - 1);
    if !(in_x && in_y) {
        return None;
    }
    let dx: i64 = x as i64 - cx as i64;
    let dy: i64 = y as i64 - cy as i64;
    proof {
        assert(0 <= dx * dx <= 16384 * 16384) by (nonlinear_arith)
            requires
                -16384 <= dx <= 16384,
        ;
        assert(0 <= dy * dy <= 16384 * 16384) by (nonlinear_arith)
            requires
                -16384 <= dy <= 16384,
        ;
        assert(r * r <= 16384 * 16384) by (nonlinear_arith)
            requires
                r <= 16384,
        ;
    }
    let d2: i64 = dx * dx + dy * dy;
    let ri = r as i64;
    if d2 > ri * ri {
        return Some(0);
    }
    proof {
        assert((2 * ri - 3) * (2 * ri - 3) <= 40000 * 40000) by (nonlinear_arith)
            requires
                0 <= ri <= 16384,
        ;
    }
    if 2 * ri < 3 || 4 * d2 > (2 * ri - 3) * (2 * ri - 3) {
        let s = isqrt_ceil(260100 * (d2 as u128));
        proof {
            assert(s <= 510 * ri) by {
                assert(260100 * d2 <= (510 * ri) * (510 * ri)) by (nonlinear_arith)
                    requires
                        d2 <= ri * ri,
                ;
                if s > 510 * ri {
                    assert((s - 1) * (s - 1) >= (510 * ri) * (510 * ri)) by (nonlinear_arith)
                        requires
                            s - 1 >= 510 * ri >= 0,
                    ;
                }
            }
        }
        let v = (510 * ri + 255 - s as i64) / 2;
        let c: u8 = if v > 255 {
            255
        } else {
            v as u8
        };
        return Some(c);
    }
    None
}

/// Alpha multiplier (0–255) of pixel `(x, y)` for corner radius `radius`.
pub fn corner_alpha(x: u32, y: u32, width: u32, height: u32, radius: u32) -> (r: u8)
    requires
        x < width <= MAX_DIM,
        y < height <= MAX_DIM,
        radius <= width / 2,
        radius <= height / 2,
    ensures
        r == corner_alpha_spec(x as int, y as int, width as int, height as int, radius as int),
{
    let right = width - radius - 1;
    let bottom = height - radius - 1;
    match corner_check_exec(x, y, width, height, radius, radius, radius) {
        Some(v) => v,
        None => match corner_check_exec(x, y, width, height, radius, right, radius) {
            Some(v) => v,
            None => match corner_check_exec(x, y, width, height, radius, radius, bottom) {
                Some(v) => v,
                None => match corner_check_exec(x, y, width, height, radius, right, bottom) {
                    Some(v) => v,
                    None => 255,
                },
            },
        },
    }
}

/// Round the corners of `img` by scaling the alpha of each pixel by its
/// corner multiplier; the radius is capped at half of each side.
pub fn apply_rounded_corners(img: &mut Frame, radius: u32)
    requires
        old(img).wf(),
    ensures
        final(img).wf(),
        final(img).width == old(img).width,
        final(img).height == old(img).height,
        forall|p: int|
            0 <= p < old(img).pixels.len() ==> #[trigger] final(img).pixels@[p] == rounded_pixel(
                old(img).pixels@[p],
                corner_alpha_spec(
                    p % (old(img).width as int),
                    p / (old(img).width as int),
                    old(img).width as int,
                    old(img).height as int,
                    clamped_radius(radius as int, old(img).width as int, old(img).height as int),
                ),
            ),
{
    let ghost before = img.pixels@;
    let w = img.width;
    let h = img.height;
    let r0 = if radius < w / 2 {
        radius
    } else {
        w / 2
    };
    let r = if r0 < h / 2 {
        r0
    } else {
        h / 2
    };
    let n = img.pixels.len();
    let mut p: usize = 0;
    while p < n
        invariant
            img.wf(),
            img.width == w,
            img.height == h,
            w == old(img).width,
            h == old(img).height,
            before == old(img).pixels@,
            r == clamped_radius(radius as int, w as int, h as int),
            n == img.pixels.len(),
            n == before.len(),
            p <= n,
            forall|q: int|
                0 <= q < p ==> #[trigger] img.pixels@[q] == rounded_pixel(
                    before[q],
                    corner_alpha_spec(q % (w as int), q / (w as int), w as int, h as int, r as int),
                ),
            forall|q: int| p <= q < n ==> #[trigger] img.pixels@[q] == before[q],
        decreases n - p,
    {
        proof {
            if w == 0 {
                assert(w * h == 0);
            }
            lemma_coords_of_index(p as int, w as int, h as int);
        }
        let x = (p % (w as usize)) as u32;
        let y = (p / (w as usize)) as u32;
        let m = corner_alpha(x, y, w, h, r);
        if m < 255 {
            let px = img.pixels[p];
            proof {
                assert(px.a * m <= 255 * 255) by (nonlinear_arith)
                    requires
                        px.a <= 255,
                        m <= 255,
                ;
            }
            let a = ((px.a as u32) * (m as u32) / 255) as u8;
            img.pixels.set(p, Rgba { a, ..px });
        }
        p = p + 1;
    }
}

/// Whether `(x, y)` lies inside the `w × h` rectangle with corners rounded
/// to radius `r`.
pub open spec fn inside_rounded_rect(x: int, y: int, w: int, h: int, r: int) -> bool {
    &&& 0 <= x < w
    &&& 0 <= y < h
    &&& !outside_corner(x, y, w, h, r, r, r)
    &&& !outside_corner(x, y, w, h, r, w - r - 1, r)
    &&& !outside_corner(x, y, w, h, r, r, h - r - 1)
    &&& !outside_corner(x, y, w, h, r, w - r - 1, h - r - 1)
}

pub open spec fn outside_corner(x: int, y: int, w: int, h: int, r: int, cx: int, cy: int) -> bool {
    in_corner(x, y, w, h, r, cx, cy) && (x - cx) * (x - cx) + (y - cy) * (y - cy) > r * r
}

fn outside_corner_exec(x: i64, y: i64, w: i64, h: i64, r: i64, cx: i64, cy: i64) -> (res: bool)
    requires
        0 <= x < w <= 4 * MAX_DIM,
        0 <= y < h <= 4 * MAX_DIM,
        0 <= r <= 4 * MAX_DIM,
        -8 * MAX_DIM <= cx <= 8 * MAX_DIM,
        -8 * MAX_DIM <= cy <= 8 * MAX_DIM,
    ensures
        res == outside_corner(x as int, y as int, w as int, h as int, r as int, cx as int, cy as int),
{
    let in_x = (x <= r && cx == r) || (x >= w - r - 1 && cx == w - r - 1);
    let in_y = (y <= r && cy == r) || (y >= h - r - 1 && cy == h - r - 1);
    if !(in_x && in_y) {
        return false;
    }
    let dx = x - cx;
    let dy = y - cy;
    proof {
        assert(0 <= dx * dx <= 200_000 * 200_000) by (nonlinear_arith)
            requires
                -200_000 <= dx <= 200_000,
        ;
        assert(0 <= dy * dy <= 200_000 * 200_000) by (nonlinear_arith)
            requires
                -200_000 <= dy <= 200_000,
        ;
        assert(r * r <= 200_000 * 200_000) by (nonlinear_arith)
            requires
                0 <= r <= 200_000,
        ;
    }
    dx * dx + dy * dy > r * r
}

/// Whether `(x, y)` lies inside the rounded rectangle.
pub fn is_inside_rounded_rect(x: i64, y: i64, width: u32, height: u32, radius: u32) -> (res: bool)
    requires
        width <= 4 * MAX_DIM,
        height <= 4 * MAX_DIM,
        radius <= 4 * MAX_DIM,
    ensures
        res == inside_rounded_rect(x as int, y as int, width as int, height as int, radius as int),
{
    let w = width as i64;
    let h = height as i64;
    let r = radius as i64;
    if x < 0 || y < 0 || x >= w || y >= h {
        return false;
    }
    !outside_corner_exec(x, y, w, h, r, r, r) && !outside_corner_exec(x, y, w, h, r, w - r - 1, r)
        && !outside_corner_exec(x, y, w, h, r, r, h - r - 1) && !outside_corner_exec(
        x,
        y,
        w,
        h,
        r,
        w - r - 1,
        h - r - 1,
    )
}

/// Rounded-corner alpha: where the corner squares do not overlap, a pixel
/// in the square of a corner keeps its alpha when it lies at most `r − 1.5`
/// from the corner's centre, and loses it all when it lies farther than `r`.
pub proof fn lemma_rounded_corner_alpha(p: Rgba, x: int, y: int, w: int, h: int, r: int, cx: int, cy: int)
    requires
        0 <= r,
        w >= 2 * r + 2,
        h >= 2 * r + 2,
        0 <= x < w,
        0 <= y < h,
        cx == r || cx == w - r - 1,
        cy == r || cy == h - r - 1,
        in_corner(x, y, w, h, r, cx, cy),
    ensures
        2 * r >= 3 && 4 * ((x - cx) * (x - cx) + (y - cy) * (y - cy)) <= (2 * r - 3) * (2 * r - 3)
            ==> rounded_pixel(p, corner_alpha_spec(x, y, w, h, r)).a == p.a,
        (x - cx) * (x - cx) + (y - cy) * (y - cy) > r * r ==> rounded_pixel(
            p,
            corner_alpha_spec(x, y, w, h, r),
        ).a == 0,
{
    let d2 = (x - cx) * (x - cx) + (y - cy) * (y - cy);
    assert(0 <= (x - cx) * (x - cx)) by (nonlinear_arith);
    assert(0 <= (y - cy) * (y - cy)) by (nonlinear_arith);
    if 2 * r >= 3 && 4 * d2 <= (2 * r - 3) * (2 * r - 3) {
        assert(d2 <= r * r) by (nonlinear_arith)
            requires
                0 <= 4 * d2 <= (2 * r - 3) * (2 * r - 3),
                2 * r >= 3,
        ;
    }
    assert(p.a * 0int / 255 == 0);
}

/// Alpha of shadow layer `layer`: `SHADOW_ALPHA · (R − layer) / R²`.
pub open spec fn shadow_layer_alpha(layer: int) -> int {
    SHADOW_ALPHA * (SHADOW_BLUR_RADIUS - layer) / (SHADOW_BLUR_RADIUS * SHADOW_BLUR_RADIUS) as int
}

pub open spec fn shadow_black() -> Rgba {
    Rgba { r: 0, g: 0, b: 0, a: SHADOW_ALPHA as u8 }
}

/// Canvas pixel `(px, py)` after shadow layer `layer` of the content
/// rectangle at `(x, y)` of size `w × h`.
pub open spec fn shadow_layer_pixel(
    bg: Rgba,
    px: int,
    py: int,
    x: int,
    y: int,
    w: int,
    h: int,
    radius: int,
    layer: int,
) -> Rgba {
    let sx = x + SHADOW_OFFSET - layer;
    let sy = y + SHADOW_OFFSET - layer;
    if inside_rounded_rect(px - sx, py - sy, w + 2 * layer, h + 2 * layer, radius + layer) {
        blend_pixel_spec(bg, shadow_black(), shadow_layer_alpha(layer))
    } else {
        bg
    }
}

/// Canvas pixels after the first `n` shadow layers.
pub open spec fn shadow_layers(
    s: Seq<Rgba>,
    cw: int,
    x: int,
    y: int,
    w: int,
    h: int,
    radius: int,
    n: int,
) -> Seq<Rgba>
    decreases n,
{
    if n <= 0 {
        s
    } else {
        let prev = shadow_layers(s, cw, x, y, w, h, radius, n - 1);
        Seq::new(
            prev.len(),
            |q: int| shadow_layer_pixel(prev[q], q % cw, q / cw, x, y, w, h, radius, n - 1),
        )
    }
}

fn shadow_layer(canvas: &mut Frame, x: i64, y: i64, width: u32, height: u32, radius: u32, layer: u32)
    requires
        old(canvas).wf(),
        width <= MAX_DIM,
        height <= MAX_DIM,
        radius <= MAX_DIM,
        layer < SHADOW_BLUR_RADIUS,
        -4 * MAX_DIM <= x <= 4 * MAX_DIM,
        -4 * MAX_DIM <= y <= 4 * MAX_DIM,
    ensures
        final(canvas).wf(),
        final(canvas).width == old(canvas).width,
        final(canvas).height == old(canvas).height,
        final(canvas).pixels@ == Seq::new(
            old(canvas).pixels@.len(),
            |q: int|
                shadow_layer_pixel(
                    old(canvas).pixels@[q],
                    q % (old(canvas).width as int),
                    q / (old(canvas).width as int),
                    x as int,
                    y as int,
                    width as int,
                    height as int,
                    radius as int,
                    layer as int,
                ),
        ),
{
    let ghost before = canvas.pixels@;
    let cw = canvas.width;
    let ch = canvas.height;
    let raw_alpha = SHADOW_ALPHA * (SHADOW_BLUR_RADIUS - layer) / (SHADOW_BLUR_RADIUS * SHADOW_BLUR_RADIUS);
    assert(0 <= raw_alpha <= 4) by (nonlinear_arith)
        requires
            raw_alpha == 80 * (20 - layer) / 400,
            layer < 20,
    ;
    let alpha = raw_alpha as u8;
    let e = layer as i64;
    let sx = x + SHADOW_OFFSET - e;
    let sy = y + SHADOW_OFFSET - e;
    let lw = width + 2 * layer;
    let lh = height + 2 * layer;
    let lr = radius + layer;
    let black = Rgba { r: 0, g: 0, b: 0, a: SHADOW_ALPHA as u8 };
    let n = canvas.pixels.len();
    let mut p: usize = 0;
    while p < n
        invariant
            canvas.wf(),
            canvas.width == cw,
            canvas.height == ch,
            cw == old(canvas).width,
            ch == old(canvas).height,
            before == old(canvas).pixels@,
            n == canvas.pixels.len(),
            n == before.len(),
            p <= n,
            alpha == shadow_layer_alpha(layer as int),
            black == shadow_black(),
            sx == x + SHADOW_OFFSET - layer,
            sy == y + SHADOW_OFFSET - layer,
            lw == width + 2 * layer,
            lh == height + 2 * layer,
            lr == radius + layer,
            lw <= 4 * MAX_DIM,
            lh <= 4 * MAX_DIM,
            lr <= 4 * MAX_DIM,
            -5 * MAX_DIM <= sx <= 5 * MAX_DIM,
            -5 * MAX_DIM <= sy <= 5 * MAX_DIM,
            forall|q: int|
                0 <= q < p ==> #[trigger] canvas.pixels@[q] == shadow_layer_pixel(
                    before[q],
                    q % (cw as int),
                    q / (cw as int),
                    x as int,
                    y as int,
                    width as int,
                    height as int,
                    radius as int,
                    layer as int,
                ),
            forall|q: int| p <= q < n ==> #[trigger] canvas.pixels@[q] == before[q],
        decreases n - p,
    {
        proof {
            if cw == 0 {
                assert(cw * ch == 0);
            }
            lemma_coords_of_index(p as int, cw as int, ch as int);
        }
        let px = (p % (cw as usize)) as i64;
        let py = (p / (cw as usize)) as i64;
        if is_inside_rounded_rect(px - sx, py - sy, lw, lh, lr) {
            let bg = canvas.pixels[p];
            canvas.pixels.set(p, blend_pixel(bg, black, alpha));
        }
        p = p + 1;
    }
    proof {
        assert(canvas.pixels@ =~= Seq::new(
            before.len(),
            |q: int|
                shadow_layer_pixel(
                    before[q],
                    q % (cw as int),
                    q / (cw as int),
                    x as int,
                    y as int,
                    width as int,
                    height as int,
                    radius as int,
                    layer as int,
                ),
        ));
    }
}

/// Paint the drop shadow of the `width × height` content rectangle whose
/// top-left corner is `(x, y)`: `SHADOW_BLUR_RADIUS` rounded rectangles,
/// each grown by one pixel, offset by `SHADOW_OFFSET`, fading outward.
pub fn draw_shadow(canvas: &mut Frame, x: i64, y: i64, width: u32, height: u32, radius: u32)
    requires
        old(canvas).wf(),
        width <= MAX_DIM,
        height <= MAX_DIM,
        radius <= MAX_DIM,
        -4 * MAX_DIM <= x <= 4 * MAX_DIM,
        -4 * MAX_DIM <= y <= 4 * MAX_DIM,
    ensures
        final(canvas).wf(),
        final(canvas).width == old(canvas).width,
        final(canvas).height == old(canvas).height,
        final(canvas).pixels@ == shadow_layers(
            old(canvas).pixels@,
            old(canvas).width as int,
            x as int,
            y as int,
            width as int,
            height as int,
            radius as int,
            SHADOW_BLUR_RADIUS as int,
        ),
{
    let ghost before = canvas.pixels@;
    let mut layer: u32 = 0;
    while layer < SHADOW_BLUR_RADIUS
        invariant
            canvas.wf(),
            canvas.width == old(canvas).width,
            canvas.height == old(canvas).height,
            before == old(canvas).pixels@,
            width <= MAX_DIM,
            height <= MAX_DIM,
            radius <= MAX_DIM,
            -4 * MAX_DIM <= x <= 4 * MAX_DIM,
            -4 * MAX_DIM <= y <= 4 * MAX_DIM,
            layer <= SHADOW_BLUR_RADIUS,
            canvas.pixels@ == shadow_layers(
                before,
                canvas.width as int,
                x as int,
                y as int,
                width as int,
                height as int,
                radius as int,
                layer as int,
            ),
        decreases SHADOW_BLUR_RADIUS - layer,
    {
        shadow_layer(canvas, x, y, width, height, radius, layer);
        layer = layer + 1;
    }
}

/// Placement of the content on the canvas: scaled by `scale_num / scale_den`
/// and centred.
#[derive(Clone, Copy, Debug, PartialEq, Eq, Structural)]
pub struct ContentLayout {
    pub scale_num: u32,
    pub scale_den: u32,
    pub offset_x: u32,
    pub offset_y: u32,
    pub scaled_width: u32,
    pub scaled_height: u32,
}

/// `min(1, (1920 − 200)/w, (1080 − 200)/h)` as a fraction.
pub open spec fn layout_scale(w: int, h: int) -> (int, int) {
    let m = if 1720 * h <= 880 * w {
        (1720int, w)
    } else {
        (880int, h)
    };
    if m.0 <= m.1 {
        m
    } else {
        (1int, 1int)
    }
}

impl ContentLayout {
    pub open spec fn wf(&self) -> bool {
        &&& 0 < self.scale_den
        &&& self.scale_num <= self.scale_den
        &&& self.scale_den <= MAX_DIM
        &&& self.scaled_width <= 1720
        &&& self.scaled_height <= 880
        &&& self.offset_x + self.scaled_width <= OUTPUT_WIDTH
        &&& self.offset_y + self.scaled_height <= OUTPUT_HEIGHT
    }

    /// Fit a `content_width × content_height` frame into the canvas with a
    /// 100-pixel margin on every side, never enlarging it, and centre it.
    pub fn calculate(content_width: u32, content_height: u32) -> (r: ContentLayout)
        requires
            0 < content_width <= MAX_DIM,
            0 < content_height <= MAX_DIM,
        ensures
            r.wf(),
            (r.scale_num as int, r.scale_den as int) == layout_scale(
                content_width as int,
                content_height as int,
            ),
            r.scaled_width == content_width * r.scale_num / (r.scale_den as int),
            r.scaled_height == content_height * r.scale_num / (r.scale_den as int),
            r.offset_x == (OUTPUT_WIDTH - r.scaled_width) / 2,
            r.offset_y == (OUTPUT_HEIGHT - r.scaled_height) / 2,
    {
        let w = content_width;
        let h = content_height;
        let (n0, d0): (u32, u32) = if 1720 * (h as u64) <= 880 * (w as u64) {
            (1720, w)
        } else {
            (880, h)
        };
        let (num, den): (u32, u32) = if n0 <= d0 {
            (n0, d0)
        } else {
            (1, 1)
        };
        proof {
            if 1720 * (h as int) <= 880 * (w as int) {
                if 1720 <= w {
                    assert(w * num <= 1720 * den && h * num <= 880 * den) by (nonlinear_arith)
                        requires
                            num == 1720,
                            den == w,
                            1720 * h <= 880 * w,
                    ;
                } else {
                    assert(h < 880) by (nonlinear_arith)
                        requires
                            1720 * h <= 880 * w,
                            w < 1720,
                    ;
                    assert(w * num <= 1720 * den && h * num <= 880 * den) by (nonlinear_arith)
                        requires
                            num == 1,
                            den == 1,
                            w < 1720,
                            h < 880,
                    ;
                }
            } else {
                if 880 <= h {
                    assert(w * num <= 1720 * den && h * num <= 880 * den) by (nonlinear_arith)
                        requires
                            num == 880,
                            den == h,
                            1720 * h > 880 * w,
                    ;
                } else {
                    assert(w < 1720) by (nonlinear_arith)
                        requires
                            1720 * h > 880 * w,
                            h < 880,
                    ;
                    assert(w * num <= 1720 * den && h * num <= 880 * den) by (nonlinear_arith)
                        requires
                            num == 1,
                            den == 1,
                            w < 1720,
                            h < 880,
                    ;
                }
            }
            assert(w * num <= 16384 * 1720) by (nonlinear_arith)
                requires
                    w <= 16384,
                    num <= 1720,
            ;
            assert(h * num <= 16384 * 1720) by (nonlinear_arith)
                requires
                    h <= 16384,
                    num <= 1720,
            ;
            vstd::arithmetic::div_mod::lemma_div_is_ordered(w * num, 1720 * den, den as int);
            vstd::arithmetic::div_mod::lemma_div_is_ordered(h * num, 880 * den, den as int);
            vstd::arithmetic::div_mod::lemma_div_by_multiple(1720, den as int);
            vstd::arithmetic::div_mod::lemma_div_by_multiple(880, den as int);
            assert(1720 * den == 1720int * den);
        }
        let sw = w * num / den;
        let sh = h * num / den;
        ContentLayout {
            scale_num: num,
            scale_den: den,
            offset_x: (OUTPUT_WIDTH - sw) / 2,
            offset_y: (OUTPUT_HEIGHT - sh) / 2,
            scaled_width: sw,
            scaled_height: sh,
        }
    }
}

/// Largest display scale factor, in thousandths (100×).
pub const MAX_SCALE_FACTOR: i64 = 100_000;

/// One event-space coordinate `v` (thousandths of a point) in canvas space
/// (thousandths of a pixel): scaled to pixels by `sf` (thousandths), moved by
/// the window offset `off` (points), scaled by the layout and placed at the
/// layout offset `lo` (pixels).
pub open spec fn to_canvas_spec(v: int, sf: int, off: int, lo: int, num: int, den: int) -> int {
    lo * SUBUNITS + (v * sf / (SUBUNITS as int) - off * sf) * num / den
}

pub proof fn lemma_scaled_bounds(b: int, num: int, den: int)
    requires
        0 <= num <= den,
        0 < den,
    ensures
        -(if b < 0 {
            -b
        } else {
            b
        }) <= b * num / den <= (if b < 0 {
            -b
        } else {
            b
        }),
{
    let m = if b < 0 {
        -b
    } else {
        b
    };
    assert(-(m * den) <= b * num <= m * den) by (nonlinear_arith)
        requires
            0 <= num <= den,
            m == b || m == -b,
            m >= 0,
    ;
    vstd::arithmetic::div_mod::lemma_div_is_ordered(b * num, m * den, den);
    vstd::arithmetic::div_mod::lemma_div_is_ordered(-(m * den), b * num, den);
    vstd::arithmetic::div_mod::lemma_div_multiples_vanish(m, den);
    vstd::arithmetic::div_mod::lemma_div_multiples_vanish(-m, den);
    assert(den * m == m * den && den * (-m) == -(m * den)) by (nonlinear_arith);
}

fn to_canvas_axis(v: i64, sf: i64, off: i32, lo: u32, num: u32, den: u32) -> (r: i64)
    requires
        -4_000_000_000_000 <= v <= 4_000_000_000_000,
        SUBUNITS <= sf <= MAX_SCALE_FACTOR,
        0 < den,
        num <= den,
        lo <= OUTPUT_WIDTH,
    ensures
        r == to_canvas_spec(v as int, sf as int, off as int, lo as int, num as int, den as int),
{
    proof {
        assert(-400_000_000_000_000_000 <= v * sf <= 400_000_000_000_000_000) by (nonlinear_arith)
            requires
                -4_000_000_000_000 <= v <= 4_000_000_000_000,
                0 <= sf <= 100_000,
        ;
        assert(-300_000_000_000_000 <= off * sf <= 300_000_000_000_000) by (nonlinear_arith)
            requires
                -3_000_000_000 <= off <= 3_000_000_000,
                0 <= sf <= 100_000,
        ;
    }
    let a = floor_div((v as i128) * (sf as i128), SUBUNITS as i128);
    proof {
        vstd::arithmetic::div_mod::lemma_div_is_ordered(v * sf, 400_000_000_000_000_000, 1000);
        vstd::arithmetic::div_mod::lemma_div_is_ordered(-400_000_000_000_000_000, v * sf, 1000);
    }
    let b = a - (off as i128) * (sf as i128);
    proof {
        lemma_scaled_bounds(b as int, num as int, den as int);
        assert(-(500_000_000_000_000_000 * (den as int)) <= b * num <= 500_000_000_000_000_000 * (
        den as int)) by (nonlinear_arith)
            requires
                -500_000_000_000_000_000 <= b <= 500_000_000_000_000_000,
                0 <= num <= den,
        ;
        assert(den <= 0x1_0000_0000);
    }
    let c = floor_div(b * (num as i128), den as i128);
    (lo as i64) * SUBUNITS + c as i64
}

/// A point in event space mapped to canvas space (thousandths of a pixel).
pub fn to_canvas(x: i64, y: i64, scale_factor: i64, window_offset: (i32, i32), layout: &ContentLayout) -> (r: (
    i64,
    i64,
))
    requires
        -4_000_000_000_000 <= x <= 4_000_000_000_000,
        -4_000_000_000_000 <= y <= 4_000_000_000_000,
        SUBUNITS <= scale_factor <= MAX_SCALE_FACTOR,
        layout.wf(),
    ensures
        r.0 == to_canvas_spec(
            x as int,
            scale_factor as int,
            window_offset.0 as int,
            layout.offset_x as int,
            layout.scale_num as int,
            layout.scale_den as int,
        ),
        r.1 == to_canvas_spec(
            y as int,
            scale_factor as int,
            window_offset.1 as int,
            layout.offset_y as int,
            layout.scale_num as int,
            layout.scale_den as int,
        ),
{
    (
        to_canvas_axis(x, scale_factor, window_offset.0, layout.offset_x, layout.scale_num, layout.scale_den),
        to_canvas_axis(y, scale_factor, window_offset.1, layout.offset_y, layout.scale_num, layout.scale_den),
    )
}

/// Width (or height) of the view that a zoom of `zoom` shows of `w` pixels.
pub open spec fn zoom_view_size(w: int, zoom: int) -> int {
    w * UNIT / zoom
}

/// Left (or top) edge of the view, in thousandths of a pixel, before
/// clamping: `focus · (1 − 1/zoom)`.
pub open spec fn zoom_origin_raw(focus: int, zoom: int) -> int {
    focus * (zoom - UNIT) / zoom
}

/// Left (or top) edge of the view in whole pixels, clamped to the image.
pub open spec fn zoom_origin(w: int, zoom: int, focus: int) -> int {
    let hi = (w - zoom_view_size(w, zoom)) * SUBUNITS;
    let raw = zoom_origin_raw(focus, zoom);
    let c = if raw < 0 {
        0
    } else if raw > hi {
        hi
    } else {
        raw
    };
    c / SUBUNITS as int
}

pub proof fn lemma_view_size_bounds(w: int, zoom: int)
    requires
        0 <= w <= MAX_DIM,
        UNIT <= zoom <= MAX_ZOOM,
    ensures
        0 <= zoom_view_size(w, zoom) <= w,
{
    assert(0 <= w * UNIT <= w * zoom) by (nonlinear_arith)
        requires
            0 <= w,
            UNIT <= zoom,
    ;
    vstd::arithmetic::div_mod::lemma_div_is_ordered(w * UNIT, w * zoom, zoom);
    vstd::arithmetic::div_mod::lemma_div_by_multiple(w, zoom);
    vstd::arithmetic::div_mod::lemma_div_pos_is_pos(w * UNIT, zoom);
}

/// Left (or top) edge of the zoomed view before clamping, in thousandths of
/// a pixel: `focus · (1 − 1/zoom)`.
pub fn zoom_origin_milli(focus: i64, zoom: i64) -> (r: i64)
    requires
        UNIT <= zoom <= MAX_ZOOM,
        -MAX_CANVAS_COORD <= focus <= MAX_CANVAS_COORD,
    ensures
        r == zoom_origin_raw(focus as int, zoom as int),
{
    proof {
        assert(-100_000_000_000_000_000_000_000 <= focus * (zoom - UNIT) <= 100_000_000_000_000_000_000_000)
            by (nonlinear_arith)
            requires
                -1_000_000_000_000_000 <= focus <= 1_000_000_000_000_000,
                0 <= zoom - UNIT <= 100_000_000,
        ;
        crate::effects::lemma_scaled_bounds(focus as int, (zoom - UNIT) as int, zoom as int);
    }
    floor_div((focus as i128) * ((zoom - UNIT) as i128), zoom as i128) as i64
}

/// Origin (whole pixels, clamped) and size of the view along one axis of
/// `w` pixels.
pub fn zoom_view(w: u32, zoom: i64, focus: i64) -> (r: (u32, u32))
    requires
        w <= MAX_DIM,
        UNIT <= zoom <= MAX_ZOOM,
        -MAX_CANVAS_COORD <= focus <= MAX_CANVAS_COORD,
    ensures
        r.0 == zoom_origin(w as int, zoom as int, focus as int),
        r.1 == zoom_view_size(w as int, zoom as int),
        r.0 + r.1 <= w,
{
    proof {
        lemma_view_size_bounds(w as int, zoom as int);
        assert(-100_000_000_000_000_000_000_000 <= focus * (zoom - UNIT) <= 100_000_000_000_000_000_000_000)
            by (nonlinear_arith)
            requires
                -1_000_000_000_000_000 <= focus <= 1_000_000_000_000_000,
                0 <= zoom - UNIT <= 100_000_000,
        ;
    }
    let view = ((w as i64) * UNIT / zoom) as u32;
    let hi = ((w - view) as i64) * SUBUNITS;
    let raw = floor_div((focus as i128) * ((zoom - UNIT) as i128), zoom as i128);
    let c: i64 = if raw < 0 {
        0
    } else if raw > hi as i128 {
        hi
    } else {
        raw as i64
    };
    ((c / SUBUNITS) as u32, view)
}

/// Zoom `img` by `zoom` (millionths, at least 1) about the focus
/// `(focus_x, focus_y)` (thousandths of a pixel): the view of size
/// `size / zoom` whose origin is `focus · (1 − 1/zoom)`, clamped to the image,
/// resampled back to the full size.
pub fn apply_zoom(img: &Frame, zoom: i64, focus_x: i64, focus_y: i64) -> (r: Frame)
    requires
        img.wf(),
        UNIT <= zoom <= MAX_ZOOM,
        -MAX_CANVAS_COORD <= focus_x <= MAX_CANVAS_COORD,
        -MAX_CANVAS_COORD <= focus_y <= MAX_CANVAS_COORD,
    ensures
        r.wf(),
        r.width == img.width,
        r.height == img.height,
        r.pixels@ == resampled(
            crop_pixels(
                img@,
                zoom_origin(img.width as int, zoom as int, focus_x as int),
                zoom_origin(img.height as int, zoom as int, focus_y as int),
                zoom_view_size(img.width as int, zoom as int),
                zoom_view_size(img.height as int, zoom as int),
            ),
            zoom_view_size(img.width as int, zoom as int),
            zoom_view_size(img.height as int, zoom as int),
            img.width as int,
            img.height as int,
            ResizeFilter::Triangle,
        ),
{
    let (left, view_w) = zoom_view(img.width, zoom, focus_x);
    let (top, view_h) = zoom_view(img.height, zoom, focus_y);
    let cropped = crop(img, left, top, view_w, view_h);
    resize(&cropped, img.width, img.height, ResizeFilter::Triangle)
}

/// Fixed-point zoom: when the view origin needs no clamping, mapping the
/// focus through the zoom (`(focus − origin) · zoom`) gives the focus back,
/// within one pixel (in thousandths of a pixel, before the origin is
/// rounded to whole pixels).
pub proof fn lemma_zoom_fixed_point(focus: int, zoom: int)
    requires
        UNIT < zoom <= MAX_ZOOM,
    ensures
        focus <= (focus - zoom_origin_raw(focus, zoom)) * zoom / (UNIT as int) <= focus + SUBUNITS,
{
    let u = UNIT as int;
    let left = zoom_origin_raw(focus, zoom);
    let n = focus * (zoom - u);
    vstd::arithmetic::div_mod::lemma_fundamental_div_mod(n, zoom);
    vstd::arithmetic::div_mod::lemma_mod_bound(n, zoom);
    let rem = n % zoom;
    assert((focus - left) * zoom == focus * u + rem) by (nonlinear_arith)
        requires
            n == zoom * left + rem,
            n == focus * (zoom - u),
    ;
    vstd::arithmetic::div_mod::lemma_fundamental_div_mod_converse(
        focus * u + rem,
        u,
        focus + rem / u,
        rem % u,
    );
    assert(focus * u + rem == (focus + rem / u) * u + rem % u) by (nonlinear_arith)
        requires
            rem == u * (rem / u) + rem % u,
    ;
    vstd::arithmetic::div_mod::lemma_fundamental_div_mod(rem, u);
    vstd::arithmetic::div_mod::lemma_div_is_ordered(rem, MAX_ZOOM as int, u);
    vstd::arithmetic::div_mod::lemma_div_pos_is_pos(rem, u);
}

/// Background of the canvas: a solid color or an image.
pub enum Background {
    Color(Rgba),
    Image(Frame),
}

/// The default background color, a dark blue-gray.
pub open spec fn default_background() -> Rgba {
    Rgba { r: 26, g: 26, b: 46, a: 255 }
}

pub open spec fn is_hex_digit(b: u8) -> bool {
    (48 <= b <= 57) || (97 <= b <= 102) || (65 <= b <= 70)
}

pub open spec fn hex_value(b: u8) -> int {
    if 48 <= b <= 57 {
        b - 48
    } else if 97 <= b <= 102 {
        b - 87
    } else {
        b - 55
    }
}

/// `s` without its leading `#` characters.
pub open spec fn strip_hashes(s: Seq<u8>) -> Seq<u8>
    decreases s.len(),
{
    if s.len() > 0 && s[0] == 35u8 {
        strip_hashes(s.drop_first())
    } else {
        s
    }
}

/// The color written as `rrggbb` after any leading `#`, fully opaque.
pub open spec fn parse_color_spec(s: Seq<u8>) -> Option<Rgba> {
    let h = strip_hashes(s);
    if h.len() == 6 && forall|i: int| 0 <= i < 6 ==> #[trigger] is_hex_digit(h[i]) {
        Some(
            Rgba {
                r: (hex_value(h[0]) * 16 + hex_value(h[1])) as u8,
                g: (hex_value(h[2]) * 16 + hex_value(h[3])) as u8,
                b: (hex_value(h[4]) * 16 + hex_value(h[5])) as u8,
                a: 255,
            },
        )
    } else {
        None
    }
}

pub proof fn lemma_strip_hashes(s: Seq<u8>, i: int)
    requires
        0 <= i <= s.len(),
        forall|j: int| 0 <= j < i ==> s[j] == 35u8,
        i == s.len() || s[i] != 35u8,
    ensures
        strip_hashes(s) == s.subrange(i, s.len() as int),
    decreases i,
{
    if i == 0 {
        assert(s.subrange(0, s.len() as int) =~= s);
    } else {
        let t = s.drop_first();
        lemma_strip_hashes(t, i - 1);
        assert(t.subrange(i - 1, t.len() as int) =~= s.subrange(i, s.len() as int));
    }
}

fn hex_digit(b: u8) -> (r: Option<u8>)
    ensures
        r matches Some(v) ==> is_hex_digit(b) && v == hex_value(b) && v < 16,
        r is None ==> !is_hex_digit(b),
{
    if 48 <= b && b <= 57 {
        Some(b - 48)
    } else if 97 <= b && b <= 102 {
        Some(b - 87)
    } else if 65 <= b && b <= 70 {
        Some(b - 55)
    } else {
        None
    }
}

impl Background {
    pub open spec fn wf(&self) -> bool {
        match self {
            Background::Color(_) => true,
            Background::Image(f) => f.wf(),
        }
    }

    /// A background from its textual form: none gives the default color,
    /// six hex digits after any leading `#` give that color; anything else
    /// is not a color (`None`), and names an image to load instead.
    pub fn parse(input: Option<&str>) -> (r: Option<Background>)
        ensures
            input is None ==> (r matches Some(Background::Color(c)) && c == default_background()),
            input matches Some(s) ==> match parse_color_spec(s.spec_bytes()) {
                Some(c) => (r matches Some(Background::Color(k)) && k == c),
                None => r is None,
            },
    {
        match input {
            None => Some(Background::Color(Rgba { r: 26, g: 26, b: 46, a: 255 })),
            Some(s) => match parse_color(s) {
                Some(c) => Some(Background::Color(c)),
                None => None,
            },
        }
    }

    /// An image background: `img` scaled to cover the canvas and cropped to it.
    pub fn from_image(img: &Frame) -> (r: Background)
        requires
            img.wf(),
            0 < img.width,
            0 < img.height,
        ensures
            r.wf(),
            r matches Background::Image(f) && f.width == OUTPUT_WIDTH && f.height == OUTPUT_HEIGHT
                && f.pixels@ == filled(
                img.pixels@,
                img.width as int,
                img.height as int,
                OUTPUT_WIDTH as int,
                OUTPUT_HEIGHT as int,
            ),
    {
        Background::Image(resize_to_fill(img, OUTPUT_WIDTH, OUTPUT_HEIGHT))
    }

    /// A fresh canvas showing this background.
    pub fn create_canvas(&self) -> (r: Frame)
        requires
            self.wf(),
            self matches Background::Image(f) ==> f.width == OUTPUT_WIDTH && f.height == OUTPUT_HEIGHT,
        ensures
            r.wf(),
            r.width == OUTPUT_WIDTH,
            r.height == OUTPUT_HEIGHT,
            self matches Background::Color(c) ==> forall|i: int|
                0 <= i < r.pixels.len() ==> #[trigger] r.pixels@[i] == c,
            self matches Background::Image(f) ==> r.pixels@ == f.pixels@,
    {
        match self {
            Background::Color(c) => Frame::solid(OUTPUT_WIDTH, OUTPUT_HEIGHT, *c),
            Background::Image(f) => f.duplicate(),
        }
    }
}

/// The color written as six hex digits after any leading `#`.
pub fn parse_color(s: &str) -> (r: Option<Rgba>)
    ensures
        r == parse_color_spec(s.spec_bytes()),
{
    let bytes = s.as_bytes();
    let n = bytes.len();
    let mut i: usize = 0;
    while i < n && bytes[i] == 35u8
        invariant
            i <= n,
            n == bytes@.len(),
            forall|j: int| 0 <= j < i ==> bytes@[j] == 35u8,
        decreases n - i,
    {
        i = i + 1;
    }
    proof {
        lemma_strip_hashes(bytes@, i as int);
    }
    let ghost h = bytes@.subrange(i as int, n as int);
    if n - i != 6 {
        return None;
    }
    assert(h.len() == 6);
    let mut digits: Vec<u8> = Vec::new();
    let mut k: usize = 0;
    while k < 6
        invariant
            k <= 6,
            n == bytes@.len(),
            bytes@ == s.spec_bytes(),
            strip_hashes(bytes@) == h,
            i + 6 == n,
            h == bytes@.subrange(i as int, n as int),
            h.len() == 6,
            digits.len() == k,
            forall|j: int|
                0 <= j < k ==> #[trigger] is_hex_digit(h[j]) && digits@[j] == hex_value(h[j])
                    && digits@[j] < 16,
        decreases 6 - k,
    {
        assert(h[k as int] == bytes@[i + k]);
        match hex_digit(bytes[i + k]) {
            Some(v) => {
                let ghost before = digits@;
                digits.push(v);
                assert forall|j: int| 0 <= j < k + 1 implies #[trigger] is_hex_digit(h[j])
                    && digits@[j] == hex_value(h[j]) && digits@[j] < 16 by {
                    if j < k {
                        assert(digits@[j] == before[j]);
                    }
                }
            },
            None => {
                assert(!is_hex_digit(h[k as int]));
                assert(!(forall|j: int| 0 <= j < 6 ==> #[trigger] is_hex_digit(h[j])));
                return None;
            },
        }
        k = k + 1;
    }
    assert(is_hex_digit(h[0]) && is_hex_digit(h[1]) && is_hex_digit(h[2]) && is_hex_digit(h[3])
        && is_hex_digit(h[4]) && is_hex_digit(h[5]));
    Some(
        Rgba {
            r: digits[0] * 16 + digits[1],
            g: digits[2] * 16 + digits[3],
            b: digits[4] * 16 + digits[5],
            a: 255,
        },
    )
}

} // verus!
