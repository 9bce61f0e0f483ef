//! RGBA frames held as plain values, straight-alpha blending, cropping,
//! compositing and resampling.
use vstd::prelude::*;

verus! {

/// Largest width or height of a frame, in pixels.
pub const MAX_DIM: u32 = 16384;

/// One RGBA pixel, straight (non-premultiplied) alpha.
#[derive(Clone, Copy, Debug, PartialEq, Eq, Structural)]
pub struct Rgba {
    pub r: u8,
    pub g: u8,
    pub b: u8,
    pub a: u8,
}

/// A `width × height` image, row by row.
#[derive(Clone, Debug)]
pub struct Frame {
    pub width: u32,
    pub height: u32,
    pub pixels: Vec<Rgba>,
}

/// The mathematical content of a frame.
pub struct Image {
    pub width: u32,
    pub height: u32,
    pub pixels: Seq<Rgba>,
}

impl Image {
    /// Pixel `(x, y)`.
    pub open spec fn at(&self, x: int, y: int) -> Rgba {
        self.pixels[y * self.width + x]
    }
}

impl View for Frame {
    type V = Image;

    open spec fn view(&self) -> Image {
        Image { width: self.width, height: self.height, pixels: self.pixels@ }
    }
}

impl Frame {
    pub open spec fn wf(&self) -> bool {
        &&& self.width <= MAX_DIM
        &&& self.height <= MAX_DIM
        &&& self.pixels.len() == self.width * self.height
    }

    /// Pixel `(x, y)` of the spec view.
    pub open spec fn at(&self, x: int, y: int) -> Rgba {
        self.pixels@[y * self.width + x]
    }

    /// A frame filled with one color.
    pub fn solid(width: u32, height: u32, color: Rgba) -> (r: Frame)
        requires
            width <= MAX_DIM,
            height <= MAX_DIM,
        ensures
            r.wf(),
            r.width == width,
            r.height == height,
            forall|i: int| 0 <= i < r.pixels.len() ==> #[trigger] r.pixels@[i] == color,
    {
        proof {
            lemma_dims_fit(width as int, height as int);
        }
        let n = (width as usize) * (height as usize);
        let mut pixels: Vec<Rgba> = Vec::new();
        let mut i: usize = 0;
        while i < n
            invariant
                i <= n,
                pixels.len() == i,
                forall|j: int| 0 <= j < i ==> #[trigger] pixels@[j] == color,
            decreases n - i,
        {
            pixels.push(color);
            i = i + 1;
        }
        Frame { width, height, pixels }
    }

    /// A copy of this frame.
    pub fn duplicate(&self) -> (r: Frame)
        requires
            self.wf(),
        ensures
            r.wf(),
            r.width == self.width,
            r.height == self.height,
            r.pixels@ == self.pixels@,
    {
        let mut pixels: Vec<Rgba> = Vec::new();
        let mut i: usize = 0;
        while i < self.pixels.len()
            invariant
                i <= self.pixels.len(),
                pixels@ == self.pixels@.take(i as int),
            decreases self.pixels.len() - i,
        {
            pixels.push(self.pixels[i]);
            i = i + 1;
            assert(pixels@ =~= self.pixels@.take(i as int));
        }
        assert(self.pixels@.take(i as int) =~= self.pixels@);
        Frame { width: self.width, height: self.height, pixels }
    }

    /// Pixel `(x, y)`.
    pub fn get_pixel(&self, x: u32, y: u32) -> (r: Rgba)
        requires
            self.wf(),
            x < self.width,
            y < self.height,
        ensures
            r == self.at(x as int, y as int),
    {
        proof {
            lemma_index_in_bounds(x as int, y as int, self.width as int, self.height as int);
        }
        self.pixels[(y as usize) * (self.width as usize) + (x as usize)]
    }
}

pub proof fn lemma_dims_fit(w: int, h: int)
    requires
        0 <= w <= MAX_DIM,
        0 <= h <= MAX_DIM,
    ensures
        0 <= w * h <= MAX_DIM * MAX_DIM,
        MAX_DIM * MAX_DIM == 268_435_456,
{
    assert(0 <= w * h <= MAX_DIM * MAX_DIM) by (nonlinear_arith)
        requires
            0 <= w <= MAX_DIM,
            0 <= h <= MAX_DIM,
    ;
}

pub proof fn lemma_index_in_bounds(x: int, y: int, w: int, h: int)
    requires
        0 <= x < w <= MAX_DIM,
        0 <= y < h <= MAX_DIM,
    ensures
        0 <= y * w + x < w * h,
        w * h <= MAX_DIM * MAX_DIM,
{
    assert(0 <= y * w + x < w * h) by (nonlinear_arith)
        requires
            0 <= x < w,
            0 <= y < h,
    ;
    lemma_dims_fit(w, h);
}

/// Column and row of pixel `p` in a frame of width `w`.
pub proof fn lemma_coords_of_index(p: int, w: int, h: int)
    requires
        0 < w,
        0 <= p < w * h,
    ensures
        0 <= p % w < w,
        0 <= p / w < h,
        p == (p / w) * w + p % w,
{
    vstd::arithmetic::div_mod::lemma_fundamental_div_mod(p, w);
    vstd::arithmetic::div_mod::lemma_mod_bound(p, w);
    vstd::arithmetic::div_mod::lemma_div_pos_is_pos(p, w);
    assert(w * (p / w) == (p / w) * w) by (nonlinear_arith);
    assert(p / w < h) by {
        if p / w >= h {
            assert((p / w) * w >= h * w) by (nonlinear_arith)
                requires
                    p / w >= h,
                    w > 0,
            ;
            assert(h * w == w * h) by (nonlinear_arith);
        }
    }
}

/// Straight-alpha blend of one channel: `(bg·(255−α) + fg·α) / 255`.
pub open spec fn blend_spec(bg: int, fg: int, alpha: int) -> int {
    (bg * (255 - alpha) + fg * alpha) / 255
}

/// `fg` blended over `bg` with weight `alpha`; the alpha channel of `bg` is kept.
pub open spec fn blend_pixel_spec(bg: Rgba, fg: Rgba, alpha: int) -> Rgba {
    Rgba {
        r: blend_spec(bg.r as int, fg.r as int, alpha) as u8,
        g: blend_spec(bg.g as int, fg.g as int, alpha) as u8,
        b: blend_spec(bg.b as int, fg.b as int, alpha) as u8,
        a: bg.a,
    }
}

pub proof fn lemma_blend_bounds(bg: int, fg: int, alpha: int)
    requires
        0 <= bg <= 255,
        0 <= fg <= 255,
        0 <= alpha <= 255,
    ensures
        0 <= bg * (255 - alpha) + fg * alpha <= 65025,
        0 <= blend_spec(bg, fg, alpha) <= 255,
{
    assert(0 <= bg * (255 - alpha) + fg * alpha <= 255 * 255) by (nonlinear_arith)
        requires
            0 <= bg <= 255,
            0 <= fg <= 255,
            0 <= alpha <= 255,
    ;
}

/// Blend a single color channel with alpha.
pub fn blend_channel(bg: u8, fg: u8, alpha: u8) -> (r: u8)
    ensures
        r == blend_spec(bg as int, fg as int, alpha as int),
{
    proof {
        lemma_blend_bounds(bg as int, fg as int, alpha as int);
    }
    let bg = bg as u32;
    let fg = fg as u32;
    let alpha = alpha as u32;
    ((bg * (255 - alpha) + fg * alpha) / 255) as u8
}

/// Blend the color channels of `fg` over `bg`.
pub fn blend_pixel(bg: Rgba, fg: Rgba, alpha: u8) -> (r: Rgba)
    ensures
        r == blend_pixel_spec(bg, fg, alpha as int),
{
    Rgba {
        r: blend_channel(bg.r, fg.r, alpha),
        g: blend_channel(bg.g, fg.g, alpha),
        b: blend_channel(bg.b, fg.b, alpha),
        a: bg.a,
    }
}

pub proof fn lemma_index_coords(x: int, y: int, w: int)
    requires
        0 <= x < w,
        0 <= y,
    ensures
        (y * w + x) % w == x,
        (y * w + x) / w == y,
{
    assert(y * w + x == w * y + x) by (nonlinear_arith);
    vstd::arithmetic::div_mod::lemma_fundamental_div_mod_converse(y * w + x, w, y, x);
}

/// Resampling filter for `resize`.
#[derive(Clone, Copy, Debug, PartialEq, Eq, Structural)]
pub enum ResizeFilter {
    Lanczos3,
    Triangle,
}

/// The pixels of a `width × height` image resampled to
/// `new_width × new_height` with `filter`.
pub uninterp spec fn resampled(
    pixels: Seq<Rgba>,
    width: int,
    height: int,
    new_width: int,
    new_height: int,
    filter: ResizeFilter,
) -> Seq<Rgba>;

/// Relies on image::imageops::resize, which returns a `new_width × new_height`
/// buffer that depends on the source pixels, the sizes and the filter alone,
/// and copies the source unchanged when the size does not change.
#[verifier::external_body]
fn resize_pixels(src: &Frame, new_width: u32, new_height: u32, filter: ResizeFilter) -> (r: Vec<Rgba>)
    requires
        src.wf(),
        new_width <= MAX_DIM,
        new_height <= MAX_DIM,
    ensures
        r@ == resampled(
            src.pixels@,
            src.width as int,
            src.height as int,
            new_width as int,
            new_height as int,
            filter,
        ),
        r@.len() == new_width * new_height,
        new_width == src.width && new_height == src.height ==> r@ == src.pixels@,
{
    let raw: Vec<u8> = src.pixels.iter().flat_map(|p| [p.r, p.g, p.b, p.a]).collect();
    let img = image::RgbaImage::from_raw(src.width, src.height, raw).unwrap();
    let f = match filter {
        ResizeFilter::Lanczos3 => image::imageops::FilterType::Lanczos3,
        ResizeFilter::Triangle => image::imageops::FilterType::Triangle,
    };
    let out = image::imageops::resize(&img, new_width, new_height, f);
    out.pixels().map(|p| Rgba { r: p[0], g: p[1], b: p[2], a: p[3] }).collect()
}

/// `src` resampled to `new_width × new_height`.
pub fn resize(src: &Frame, new_width: u32, new_height: u32, filter: ResizeFilter) -> (r: Frame)
    requires
        src.wf(),
        new_width <= MAX_DIM,
        new_height <= MAX_DIM,
    ensures
        r.wf(),
        r.width == new_width,
        r.height == new_height,
        r.pixels@ == resampled(
            src.pixels@,
            src.width as int,
            src.height as int,
            new_width as int,
            new_height as int,
            filter,
        ),
{
    let pixels = resize_pixels(src, new_width, new_height, filter);
    Frame { width: new_width, height: new_height, pixels }
}

/// Pixels of the `width × height` rectangle of `src` at `(left, top)`, row by row.
pub open spec fn crop_pixels(src: Image, left: int, top: int, width: int, height: int) -> Seq<Rgba> {
    Seq::new((width * height) as nat, |q: int| src.at(left + q % width, top + q / width))
}

/// The pixels of a `width × height` image scaled with Lanczos filtering to
/// cover `new_width × new_height` and cropped to it, centred.
pub uninterp spec fn filled(
    pixels: Seq<Rgba>,
    width: int,
    height: int,
    new_width: int,
    new_height: int,
) -> Seq<Rgba>;

/// Relies on image::DynamicImage::resize_to_fill with the Lanczos3 filter,
/// which scales the image to cover the new size, crops the overflow evenly
/// and returns a `new_width × new_height` image that depends on the source
/// pixels and the sizes alone.
#[verifier::external_body]
fn fill_pixels(src: &Frame, new_width: u32, new_height: u32) -> (r: Vec<Rgba>)
    requires
        src.wf(),
        0 < src.width,
        0 < src.height,
        0 < new_width <= MAX_DIM,
        0 < new_height <= MAX_DIM,
    ensures
        r@ == filled(
            src.pixels@,
            src.width as int,
            src.height as int,
            new_width as int,
            new_height as int,
        ),
        r@.len() == new_width * new_height,
{
    let raw: Vec<u8> = src.pixels.iter().flat_map(|p| [p.r, p.g, p.b, p.a]).collect();
    let img = image::DynamicImage::ImageRgba8(image::RgbaImage::from_raw(src.width, src.height, raw).unwrap());
    let out = img.resize_to_fill(new_width, new_height, image::imageops::FilterType::Lanczos3).to_rgba8();
    out.pixels().map(|p| Rgba { r: p[0], g: p[1], b: p[2], a: p[3] }).collect()
}

/// `src` scaled to cover `new_width × new_height` and cropped to it.
pub fn resize_to_fill(src: &Frame, new_width: u32, new_height: u32) -> (r: Frame)
    requires
        src.wf(),
        0 < src.width,
        0 < src.height,
        0 < new_width <= MAX_DIM,
        0 < new_height <= MAX_DIM,
    ensures
        r.wf(),
        r.width == new_width,
        r.height == new_height,
        r.pixels@ == filled(
            src.pixels@,
            src.width as int,
            src.height as int,
            new_width as int,
            new_height as int,
        ),
{
    let pixels = fill_pixels(src, new_width, new_height);
    Frame { width: new_width, height: new_height, pixels }
}

/// The `width × height` rectangle of `src` whose top-left corner is `(left, top)`.
pub fn crop(src: &Frame, left: u32, top: u32, width: u32, height: u32) -> (r: Frame)
    requires
        src.wf(),
        left + width <= src.width,
        top + height <= src.height,
    ensures
        r.wf(),
        r.width == width,
        r.height == height,
        r.pixels@ == crop_pixels(src@, left as int, top as int, width as int, height as int),
        forall|x: int, y: int|
            0 <= x < width && 0 <= y < height ==> #[trigger] r.at(x, y) == src.at(left + x, top + y),
{
    let mut pixels: Vec<Rgba> = Vec::new();
    let mut y: u32 = 0;
    while y < height
        invariant
            src.wf(),
            left + width <= src.width,
            top + height <= src.height,
            y <= height,
            pixels.len() == y * width,
            forall|q: int|
                0 <= q < pixels.len() ==> #[trigger] pixels@[q] == src.at(
                    left + q % (width as int),
                    top + q / (width as int),
                ),
        decreases height - y,
    {
        let mut x: u32 = 0;
        while x < width
            invariant
                src.wf(),
                left + width <= src.width,
                top + height <= src.height,
                y < height,
                x <= width,
                pixels.len() == y * width + x,
                forall|q: int|
                    0 <= q < pixels.len() ==> #[trigger] pixels@[q] == src.at(
                        left + q % (width as int),
                        top + q / (width as int),
                    ),
            decreases width - x,
        {
            let px = src.get_pixel(left + x, top + y);
            proof {
                lemma_index_coords(x as int, y as int, width as int);
            }
            pixels.push(px);
            x = x + 1;
        }
        proof {
            assert(y * width + width == (y + 1) * width) by (nonlinear_arith);
        }
        y = y + 1;
    }
    proof {
        lemma_dims_fit(width as int, height as int);
        assert(height * width == width * height) by (nonlinear_arith);
    }
    let r = Frame { width, height, pixels };
    assert(r.pixels@ =~= crop_pixels(src@, left as int, top as int, width as int, height as int));
    assert forall|x: int, y: int| 0 <= x < width && 0 <= y < height implies #[trigger] r.at(x, y)
        == src.at(left + x, top + y) by {
        lemma_index_coords(x, y, width as int);
        lemma_index_in_bounds(x, y, width as int, height as int);
        assert(height * width == width * height) by (nonlinear_arith);
        assert(pixels@[y * width + x] == src.at(left + x, top + y));
    }
    r
}

/// Canvas pixel `(x, y)` after compositing `top` at `(ox, oy)`: blended with
/// the covering pixel of `top` by that pixel's alpha, else unchanged.
pub open spec fn overlay_pixel(bg: Rgba, top: Image, ox: int, oy: int, x: int, y: int) -> Rgba {
    if ox <= x < ox + top.width && oy <= y < oy + top.height {
        let fg = top.at(x - ox, y - oy);
        blend_pixel_spec(bg, fg, fg.a as int)
    } else {
        bg
    }
}

/// Composite `top` onto `canvas` with its top-left corner at `(ox, oy)`.
pub fn overlay(canvas: &mut Frame, top: &Frame, ox: i64, oy: i64)
    requires
        old(canvas).wf(),
        top.wf(),
    ensures
        final(canvas).wf(),
        final(canvas).width == old(canvas).width,
        final(canvas).height == old(canvas).height,
        forall|p: int|
            0 <= p < old(canvas).pixels.len() ==> #[trigger] final(canvas).pixels@[p] == overlay_pixel(
                old(canvas).pixels@[p],
                top@,
                ox as int,
                oy as int,
                p % (old(canvas).width as int),
                p / (old(canvas).width as int),
            ),
{
    let ghost before = canvas.pixels@;
    let w = canvas.width;
    let n = canvas.pixels.len();
    let mut p: usize = 0;
    while p < n
        invariant
            canvas.wf(),
            top.wf(),
            canvas.width == w,
            canvas.height == old(canvas).height,
            before == old(canvas).pixels@,
            w == old(canvas).width,
            n == canvas.pixels.len(),
            n == before.len(),
            p <= n,
            forall|q: int|
                0 <= q < p ==> #[trigger] canvas.pixels@[q] == overlay_pixel(
                    before[q],
                    top@,
                    ox as int,
                    oy as int,
                    q % (w as int),
                    q / (w as int),
                ),
            forall|q: int| p <= q < n ==> #[trigger] canvas.pixels@[q] == before[q],
        decreases n - p,
    {
        proof {
            if w == 0 {
                assert(w * canvas.height == 0);
            }
            lemma_coords_of_index(p as int, w as int, canvas.height as int);
        }
        let x = (p % (w as usize)) as i64;
        let y = (p / (w as usize)) as i64;
        let bg = canvas.pixels[p];
        if ox <= x && x < ox + top.width as i64 && oy <= y && y < oy + top.height as i64 {
            let fg = top.get_pixel((x - ox) as u32, (y - oy) as u32);
            let v = blend_pixel(bg, fg, fg.a);
            canvas.pixels.set(p, v);
        }
        p = p + 1;
    }
}

} // verus!
