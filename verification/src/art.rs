//! Pictures: scaling them to the screen, classifying them, and their encoded form.

use crate::raster::{Grid, Raster, Rgba};
use vstd::prelude::*;

verus! {

// ── Scaling ───────────────────────────────────────────────────────────────────
/// The factor by which artwork with a standard window is scaled to the screen.
pub const V6_ART_SCALE: u32 = 2;

/// The pixels that `image::imageops::resize` makes, with the nearest-neighbour filter, of
/// a picture of `w` × `h` pixels when it is brought to `nw` × `nh`.
pub uninterp spec fn nearest_of(g: Seq<Seq<Rgba>>, w: u32, h: u32, nw: u32, nh: u32) -> Seq<Seq<Rgba>>;

/// The picture with each pixel repeated `sx` times across and `sy` times down.
pub open spec fn repeated(g: Grid, w: int, h: int, sx: int, sy: int) -> Grid {
    Seq::new(
        (h * sy) as nat,
        |y: int| Seq::new((w * sx) as nat, |x: int| g[y / sy][x / sx]),
    )
}

/// Whether the buffers of a resampling from `w` × `h` to `nw` × `nh` pixels can be
/// allocated.
pub open spec fn resizable(w: int, h: int, nw: int, nh: int) -> bool {
    w * h * 4 <= isize::MAX && w * nh * 16 <= isize::MAX && nw * nh * 16 <= isize::MAX
}

/// `image::imageops::resize` with `FilterType::Nearest`, on an RGBA image. The result has
/// the extent asked for and is a function of the arguments; where either side stays as
/// long as it was or doubles, every pixel is the one it came from, repeated. The bound on
/// the sides is where the sampling positions stay exact in single precision.
#[verifier::external_body]
fn resize_nearest(src: &Raster, nw: u32, nh: u32) -> (r: Raster)
    requires
        src.wf(),
        resizable(src.width as int, src.height as int, nw as int, nh as int),
    ensures
        r.wf(),
        r.width == nw,
        r.height == nh,
        r.grid() == nearest_of(src.grid(), src.width, src.height, nw, nh),
        forall|sx: int, sy: int|
            1 <= sx <= 2 && 1 <= sy <= 2 && 0 < src.width <= 0x10_0000 && 0 < src.height <= 0x10_0000
                && nw == src.width * sx && nh == src.height * sy ==> r.grid()
                == #[trigger] repeated(src.grid(), src.width as int, src.height as int, sx, sy),
{
    let img = image::RgbaImage::from_fn(
        src.width,
        src.height,
        |x, y| {
            let p = src.get(x, y);
            image::Rgba([p.r, p.g, p.b, p.a])
        },
    );
    let out = image::imageops::resize(&img, nw, nh, image::imageops::FilterType::Nearest);
    let px = |p: &image::Rgba<u8>| Rgba { r: p[0], g: p[1], b: p[2], a: p[3] };
    let row = |y: u32| (0..nw).map(|x| px(out.get_pixel(x, y))).collect();
    Raster { width: nw, height: nh, rows: (0..nh).map(row).collect() }
}

/// Whether a picture of `w` × `h` pixels can be scaled.
pub open spec fn scalable(w: int, h: int, scale: (u32, u32)) -> bool {
    &&& w * scale.0 <= u32::MAX
    &&& h * scale.1 <= u32::MAX
    &&& resizable(w, h, w * scale.0, h * scale.1)
}

/// A picture as it stands on the screen.
pub open spec fn scaled_art(g: Grid, w: u32, h: u32, scale: (u32, u32)) -> Grid {
    if scale == (1u32, 1u32) {
        g
    } else {
        nearest_of(g, w, h, (w * scale.0) as u32, (h * scale.1) as u32)
    }
}

/// Scales a picture from its own pixels to those of the screen, by a factor for each axis.
pub fn v6_scaled_art(img: &Raster, scale: (u32, u32)) -> (r: Raster)
    requires
        img.wf(),
        scalable(img.width as int, img.height as int, scale),
    ensures
        r.wf(),
        r.width == img.width * scale.0,
        r.height == img.height * scale.1,
        r.grid() == scaled_art(img.grid(), img.width, img.height, scale),
        1 <= scale.0 <= 2 && 1 <= scale.1 <= 2 && 0 < img.width <= 0x10_0000 && 0 < img.height
            <= 0x10_0000 ==> r.grid() == repeated(
            img.grid(),
            img.width as int,
            img.height as int,
            scale.0 as int,
            scale.1 as int,
        ),
{
    if scale.0 == 1 && scale.1 == 1 {
        let r = img.copy();
        assert(r.grid() =~~= repeated(img.grid(), img.width as int, img.height as int, 1, 1));
        return r;
    }
    resize_nearest(img, img.width * scale.0, img.height * scale.1)
}

// ── Classifying ───────────────────────────────────────────────────────────────
/// How a picture stands in the flow of the text.
#[derive(Clone, Copy, Debug, PartialEq, Eq, Structural)]
pub enum ImageAlign {
    /// In a band of its own.
    InlineUp,
    /// At the left margin, with the text beside it.
    MarginLeft,
    /// At the right margin, with the text beside it.
    MarginRight,
}

/// A picture anchored in the text.
#[derive(Debug)]
pub struct InlineImage {
    pub pixels: Raster,
    pub align: ImageAlign,
    /// The left margin the game reserved for the picture, in pixels.
    pub margin_px: Option<u32>,
}

/// The mathematical model of an [`InlineImage`].
#[verifier::ext_equal]
pub struct ImageView {
    pub w: u32,
    pub h: u32,
    pub grid: Grid,
    pub align: ImageAlign,
    pub margin_px: Option<u32>,
}

impl InlineImage {
    /// The model of the picture.
    pub open spec fn view(&self) -> ImageView {
        ImageView {
            w: self.pixels.width,
            h: self.pixels.height,
            grid: self.pixels.grid(),
            align: self.align,
            margin_px: self.margin_px,
        }
    }
}

/// The larger of a length and one.
pub open spec fn at_least_one(n: int) -> int {
    if n < 1 {
        1
    } else {
        n
    }
}

/// Whether a picture shows something rather than framing the screen: it is wider than 15 %
/// of the screen, and covers 40 % of the screen's area, or 60 % of its width and 30 % of
/// its height.
pub open spec fn content_art(pic_w: int, pic_h: int, screen_w: int, screen_h: int) -> bool {
    let sw = at_least_one(screen_w);
    let sh = at_least_one(screen_h);
    &&& pic_w * 100 > sw * 15
    &&& {
        ||| pic_w * pic_h * 100 >= sw * sh * 40
        ||| pic_w * 100 >= sw * 60 && pic_h * 100 >= sh * 30
    }
}

/// Classifies a picture as content, against the decorative art of a frame: borders, narrow
/// strips and tiles.
pub fn is_content_art(pic_w: u32, pic_h: u32, screen_w: u32, screen_h: u32) -> (r: bool)
    ensures
        r == content_art(pic_w as int, pic_h as int, screen_w as int, screen_h as int),
{
    let sw: u128 = if screen_w < 1 {
        1
    } else {
        screen_w as u128
    };
    let sh: u128 = if screen_h < 1 {
        1
    } else {
        screen_h as u128
    };
    let pw: u128 = pic_w as u128;
    let ph: u128 = pic_h as u128;
    if pw * 100 <= sw * 15 {
        return false;
    }
    assert(pw * ph <= 0xffff_ffff * 0xffff_ffff) by (nonlinear_arith)
        requires
            pw <= 0xffff_ffff,
            ph <= 0xffff_ffff,
    ;
    assert(sw * sh <= 0xffff_ffff * 0xffff_ffff) by (nonlinear_arith)
        requires
            sw <= 0xffff_ffff,
            sh <= 0xffff_ffff,
    ;
    if pw * ph * 100 >= sw * sh * 40 {
        return true;
    }
    pw * 100 >= sw * 60 && ph * 100 >= sh * 30
}

/// The narrowest right margin that is a reservation and not a frame's inset, in pixels.
pub const MIN_RIGHT_MARGIN_PX: u16 = 48;

/// The narrowest column that prose can flow in, in pixels.
pub const MIN_TEXT_COL_PX: u16 = 48;

/// How far left of the text column's edge a picture beside it may begin, in pixels.
pub const PIC_START_TOL: u16 = 48;

/// The difference, or zero where it would be negative.
pub open spec fn less(a: int, b: int) -> int {
    if a < b {
        0
    } else {
        a - b
    }
}

/// The smaller of a sum and the largest 16-bit number.
pub open spec fn plus16(a: int, b: int) -> int {
    if a + b > 0xffff {
        0xffff
    } else {
        a + b
    }
}

/// Whether the margins reserve the right of the window for a picture: the right margin is
/// the larger and wide enough, prose fits to its left, the picture reaches the right half
/// of the window, and it begins at the edge of the text column or beyond.
pub open spec fn is_right_margin_picture(
    iw: int,
    pic_x: int,
    left_margin: int,
    right_margin: int,
    win_w: int,
) -> bool {
    let text_right = less(win_w, right_margin);
    &&& right_margin > left_margin
    &&& right_margin >= MIN_RIGHT_MARGIN_PX
    &&& less(text_right, left_margin) >= MIN_TEXT_COL_PX
    &&& pic_x + iw >= win_w / 2
    &&& plus16(pic_x, PIC_START_TOL as int) >= text_right
}

/// How a picture in the story window is aligned.
pub open spec fn pic_align(
    iw: int,
    ih: int,
    screen_w: int,
    screen_h: int,
    pic_x: int,
    left_margin: int,
    right_margin: int,
    win_w: int,
) -> ImageAlign {
    if is_right_margin_picture(iw, pic_x, left_margin, right_margin, win_w) {
        ImageAlign::MarginRight
    } else if content_art(iw, ih, screen_w, screen_h) {
        ImageAlign::InlineUp
    } else {
        ImageAlign::MarginLeft
    }
}

/// The alignment of a picture in the story window, given the picture's size, the screen's
/// size, where the picture was drawn and the margins of the window. A picture beside which
/// the game reserved a left column floats right; other content art stands in a band of its
/// own; what is left is a drop-cap or an icon at the left margin.
pub fn win0_pic_align(
    iw: u32,
    ih: u32,
    screen_w: u32,
    screen_h: u32,
    pic_x: u16,
    left_margin: u16,
    right_margin: u16,
    win_w: u16,
) -> (r: ImageAlign)
    ensures
        r == pic_align(
            iw as int,
            ih as int,
            screen_w as int,
            screen_h as int,
            pic_x as int,
            left_margin as int,
            right_margin as int,
            win_w as int,
        ),
{
    let text_right: u16 = win_w.saturating_sub(right_margin);
    let text_col: u16 = text_right.saturating_sub(left_margin);
    let reach: u64 = pic_x as u64 + iw as u64;
    let is_margin_right: bool = right_margin > left_margin && right_margin >= MIN_RIGHT_MARGIN_PX
        && text_col >= MIN_TEXT_COL_PX && reach >= (win_w / 2) as u64 && pic_x.saturating_add(
        PIC_START_TOL,
    ) >= text_right;
    if is_margin_right {
        return ImageAlign::MarginRight;
    }
    if is_content_art(iw, ih, screen_w, screen_h) {
        ImageAlign::InlineUp
    } else {
        ImageAlign::MarginLeft
    }
}

/// Scaling a picture and the screen by the same factor leaves the picture's class as it was.
pub proof fn scaling_keeps_the_class(pic_w: int, pic_h: int, screen_w: int, screen_h: int, k: int)
    requires
        pic_w >= 0,
        pic_h >= 0,
        screen_w >= 1,
        screen_h >= 1,
        k >= 1,
    ensures
        content_art(pic_w * k, pic_h * k, screen_w * k, screen_h * k) == content_art(
            pic_w,
            pic_h,
            screen_w,
            screen_h,
        ),
{
    assert(screen_w * k >= 1 && screen_h * k >= 1) by (nonlinear_arith)
        requires
            screen_w >= 1,
            screen_h >= 1,
            k >= 1,
    ;
    assert((pic_w * k) * 100 > (screen_w * k) * 15 <==> pic_w * 100 > screen_w * 15)
        by (nonlinear_arith)
        requires
            k >= 1,
    ;
    assert((pic_w * k) * 100 >= (screen_w * k) * 60 <==> pic_w * 100 >= screen_w * 60)
        by (nonlinear_arith)
        requires
            k >= 1,
    ;
    assert((pic_h * k) * 100 >= (screen_h * k) * 30 <==> pic_h * 100 >= screen_h * 30)
        by (nonlinear_arith)
        requires
            k >= 1,
    ;
    let p = pic_w * pic_h;
    let s = screen_w * screen_h;
    let q = k * k;
    assert((pic_w * k) * (pic_h * k) == p * q) by (nonlinear_arith)
        requires
            p == pic_w * pic_h,
            q == k * k,
    ;
    assert((screen_w * k) * (screen_h * k) == s * q) by (nonlinear_arith)
        requires
            s == screen_w * screen_h,
            q == k * k,
    ;
    assert(q >= 1) by (nonlinear_arith)
        requires
            k >= 1,
            q == k * k,
    ;
    assert((p * q) * 100 >= (s * q) * 40 <==> p * 100 >= s * 40) by (nonlinear_arith)
        requires
            q >= 1,
    ;
}

// ── The encoded form ──────────────────────────────────────────────────────────
/// What `DynamicImage::write_to` writes for a picture in the PNG format, if it writes it.
pub uninterp spec fn png_of(w: u32, h: u32, g: Seq<Seq<Rgba>>) -> Option<Seq<u8>>;

/// The extent and the pixels that `image::load_from_memory`, followed by `to_rgba8`, reads
/// out of encoded bytes, if it can read them.
pub uninterp spec fn image_in(bytes: Seq<u8>) -> Option<(u32, u32, Seq<Seq<Rgba>>)>;

/// How many bytes of pixels are read out of encoded bytes at most: 512 MiB.
pub const PNG_BYTES_MAX: u64 = 0x2000_0000;

/// Whether a picture has an encoded form that reads back as the picture itself: it has
/// pixels, and they are not over the limit of what is read.
pub open spec fn png_sized(w: u32, h: u32) -> bool {
    1 <= w && 1 <= h && w * h * 4 <= PNG_BYTES_MAX
}

/// The view of optional bytes.
pub open spec fn bytes_view(o: Option<Vec<u8>>) -> Option<Seq<u8>> {
    match o {
        Some(b) => Some(b@),
        None => None,
    }
}

/// The extent and the pixels of an optional picture.
pub open spec fn picture_view(o: Option<Raster>) -> Option<(u32, u32, Grid)> {
    match o {
        Some(i) => Some((i.width, i.height, i.grid())),
        None => None,
    }
}

/// What optional bytes read back as.
pub open spec fn read_back(o: Option<Vec<u8>>) -> Option<(u32, u32, Grid)> {
    match o {
        Some(b) => image_in(b@),
        None => None,
    }
}

/// `DynamicImage::write_to` with `ImageFormat::Png`, on an RGBA image: the bytes are a
/// function of the picture. A picture that is neither empty nor over the limit that
/// `image::load_from_memory` sets on what it reads is encoded, and the bytes read back as the
/// same picture, since the format loses nothing of eight-bit RGBA.
#[verifier::external_body]
pub(crate) fn encode_png(img: &Raster) -> (r: Option<Vec<u8>>)
    requires
        img.wf(),
        img.width * img.height * 4 <= isize::MAX,
    ensures
        bytes_view(r) == png_of(img.width, img.height, img.grid()),
        png_sized(img.width, img.height) ==> read_back(r) == Some(
            (img.width, img.height, img.grid()),
        ),
{
    let raw = image::RgbaImage::from_fn(
        img.width,
        img.height,
        |x, y| {
            let p = img.get(x, y);
            image::Rgba([p.r, p.g, p.b, p.a])
        },
    );
    let mut bytes = Vec::new();
    image::DynamicImage::ImageRgba8(raw)
        .write_to(&mut std::io::Cursor::new(&mut bytes), image::ImageFormat::Png)
        .ok()?;
    Some(bytes)
}

/// `image::load_from_memory`, then `DynamicImage::to_rgba8`: the picture, if any, is a
/// function of the bytes, as long as the process registers no decoding hook of its own.
#[verifier::external_body]
pub(crate) fn decode_image(bytes: &[u8]) -> (r: Option<Raster>)
    ensures
        r matches Some(i) ==> i.wf(),
        picture_view(r) == image_in(bytes@),
{
    let img = image::load_from_memory(bytes).ok()?.to_rgba8();
    let (width, height) = (img.width(), img.height());
    let px = |p: &image::Rgba<u8>| Rgba { r: p[0], g: p[1], b: p[2], a: p[3] };
    let row = |y: u32| (0..width).map(|x| px(img.get_pixel(x, y))).collect();
    Some(Raster { width, height, rows: (0..height).map(row).collect() })
}

/// A picture beside which the game reserved the right of the window stands at the right
/// margin; one that is content stands in a band of its own; any other stands at the left.
/// Without a right margin wider than the left, and wide enough to be a reservation, nothing
/// stands at the right.
pub proof fn a_picture_is_aligned_by_its_margins(
    iw: int,
    ih: int,
    screen_w: int,
    screen_h: int,
    x: int,
    left: int,
    right: int,
    win_w: int,
)
    requires
        iw >= 0,
        ih >= 0,
        x >= 0,
        0 <= left,
        0 <= right,
        0 <= win_w <= 0xffff,
    ensures
        ({
            let align = pic_align(iw, ih, screen_w, screen_h, x, left, right, win_w);
            let edge = win_w - right;
            &&& right < 48 || right <= left ==> !(align is MarginRight)
            &&& edge - left < 48 ==> !(align is MarginRight)
            &&& right >= 48 && right > left && edge - left >= 48 && 2 * (x + iw) >= win_w && x + 48
                >= edge ==> align is MarginRight
            &&& align is MarginRight ==> x + 48 >= edge && 2 * (x + iw) >= win_w - 1
            &&& !(align is MarginRight) ==> (align is InlineUp <==> content_art(
                iw,
                ih,
                screen_w,
                screen_h,
            ))
        }),
{
}

/// Content covers much of the screen: a picture as large as the screen is content, and one
/// that is no wider than three twentieths of it, or that covers less than three tenths of its
/// height and less than two fifths of its area, is a frame. Of two pictures, the one that is
/// no smaller either way is content if the other is.
pub proof fn content_is_large(w: int, h: int, screen_w: int, screen_h: int, more_w: int, more_h: int)
    requires
        w >= 0,
        h >= 0,
        screen_w >= 1,
        screen_h >= 1,
        more_w >= w,
        more_h >= h,
    ensures
        content_art(screen_w, screen_h, screen_w, screen_h),
        w * 20 <= screen_w * 3 ==> !content_art(w, h, screen_w, screen_h),
        h * 10 < screen_h * 3 && w * h * 5 < screen_w * screen_h * 2 ==> !content_art(
            w,
            h,
            screen_w,
            screen_h,
        ),
        w * 5 < screen_w * 3 && w * h * 5 < screen_w * screen_h * 2 ==> !content_art(
            w,
            h,
            screen_w,
            screen_h,
        ),
        w * 20 > screen_w * 3 && w * h * 5 >= screen_w * screen_h * 2 ==> content_art(
            w,
            h,
            screen_w,
            screen_h,
        ),
        w * 5 >= screen_w * 3 && h * 10 >= screen_h * 3 ==> content_art(w, h, screen_w, screen_h),
        content_art(w, h, screen_w, screen_h) ==> content_art(more_w, more_h, screen_w, screen_h),
{
    assert(screen_w * screen_h * 100 >= screen_w * screen_h * 40) by (nonlinear_arith)
        requires
            screen_w >= 1,
            screen_h >= 1,
    ;
    assert(more_w * more_h >= w * h) by (nonlinear_arith)
        requires
            w >= 0,
            h >= 0,
            more_w >= w,
            more_h >= h,
    ;
}

} // verus!
