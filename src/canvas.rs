//! The pixel buffer a scene is drawn on, and its encodings.
use embedded_graphics::prelude::{DrawTarget, Point};
use epd_waveshare::color::Color;
use epd_waveshare::graphics::{VarDisplay, VarDisplayError};
use crate::error::Error;
use vstd::prelude::*;

verus! {

/// The e-paper driver's error, mapped to the library's own where it arises.
#[verifier::external_type_specification]
#[verifier::external_body]
pub struct ExVarDisplayError(VarDisplayError);

/// The image codec's error, mapped to the library's own where it arises.
#[verifier::external_type_specification]
#[verifier::external_body]
pub struct ExImageError(image::ImageError);

/// Width of the e-paper panel, in its native portrait orientation.
pub const PANEL_WIDTH: u32 = 128;

/// Height of the e-paper panel, in its native portrait orientation.
pub const PANEL_HEIGHT: u32 = 296;

/// Formats an image can be encoded in.
#[derive(Clone, Copy, Debug, PartialEq, Eq, Structural)]
pub enum ImageFormat {
    /// Raw bytes for the e-paper panel.
    Epd,
    /// PNG image.
    Png,
    /// GIF image.
    Gif,
    /// BMP image.
    Bmp,
}

/// The general-purpose raster formats.
#[derive(Clone, Copy, Debug, PartialEq, Eq, Structural)]
pub enum RasterFormat {
    Png,
    Gif,
    Bmp,
}

pub open spec fn mime_of(format: ImageFormat) -> Seq<char> {
    match format {
        ImageFormat::Epd => "application/octet-stream"@,
        ImageFormat::Png => "image/png"@,
        ImageFormat::Gif => "image/gif"@,
        ImageFormat::Bmp => "image/bmp"@,
    }
}

impl ImageFormat {
    /// A MIME type suitable for serving the encoded bytes.
    pub fn mime_type(&self) -> (r: &'static str)
        ensures
            r@ == mime_of(*self),
    {
        match self {
            ImageFormat::Epd => "application/octet-stream",
            ImageFormat::Png => "image/png",
            ImageFormat::Gif => "image/gif",
            ImageFormat::Bmp => "image/bmp",
        }
    }
}

/// The file a raster codec makes of `rgba`, `width` by `height` pixels of four bytes each;
/// none where the codec refuses the image.
pub uninterp spec fn raster_file(format: RasterFormat, width: u32, height: u32, rgba: Seq<u8>) -> Option<Seq<u8>>;

/// The raster codec of a format other than the panel's.
pub open spec fn raster_of(format: ImageFormat) -> RasterFormat {
    match format {
        ImageFormat::Gif => RasterFormat::Gif,
        ImageFormat::Bmp => RasterFormat::Bmp,
        _ => RasterFormat::Png,
    }
}

/// Relies on image::ImageBuffer::write_to: the encoder of the chosen format writes the
/// whole file for the pixels given, or refuses them; either way a function of its inputs.
#[verifier::external_body]
fn write_raster(rgba: &Vec<u8>, width: u32, height: u32, format: RasterFormat) -> (r: Result<
    Vec<u8>,
    image::ImageError,
>)
    requires
        rgba@.len() == 4 * width * height,
    ensures
        match r {
            Ok(b) => raster_file(format, width, height, rgba@) == Some(b@),
            Err(_) => raster_file(format, width, height, rgba@) is None,
        },
{
    let img = image::RgbaImage::from_raw(width, height, rgba.clone()).unwrap();
    let format = match format {
        RasterFormat::Png => image::ImageFormat::Png,
        RasterFormat::Gif => image::ImageFormat::Gif,
        RasterFormat::Bmp => image::ImageFormat::Bmp,
    };
    let mut buf: Vec<u8> = Vec::new();
    img.write_to(&mut std::io::Cursor::new(&mut buf), format)?;
    Ok(buf)
}

/// The panel buffer for `width` by `height` pixels after `points` are set, in order,
/// black (`true`) or white: one bit per pixel, eight to a byte from the most significant
/// bit, `(width + 7) / 8` bytes to a row, a set bit white; all white to start with. Points
/// off the panel are skipped.
pub open spec fn epd_frame(width: u32, height: u32, points: Seq<(i32, i32, bool)>) -> Seq<u8>
    decreases points.len(),
{
    if points.len() == 0 {
        Seq::new(((width + 7) / 8 * height) as nat, |i: int| 0xffu8)
    } else {
        let prev = epd_frame(width, height, points.drop_last());
        let (x, y, black) = points.last();
        if 0 <= x < width && 0 <= y < height {
            let idx = y * ((width + 7) / 8) + x / 8;
            let bit = (0x80u8 >> ((x % 8) as u8)) as u8;
            prev.update(idx, if black { prev[idx] & !bit } else { prev[idx] | bit })
        } else {
            prev
        }
    }
}

/// Relies on epd_waveshare's VarDisplay: a buffer of buffer_len(width, height) bytes, all
/// white (Color::White's byte 0xff), in which DrawTarget::draw_iter sets each point through
/// set_pixel (unrotated: byte x / 8 + y * line_bytes, mask 0x80 >> x % 8, set for white,
/// cleared for black); points off the panel are skipped. The panel's size must fit in an
/// i32, as set_pixel compares points against it cast to one. VarDisplay::new refuses only a
/// buffer shorter than that length, so it cannot fail here.
#[verifier::external_body]
fn pack_panel_buffer(points: &Vec<(i32, i32, bool)>, width: u32, height: u32) -> (r: Result<
    Vec<u8>,
    VarDisplayError,
>)
    requires
        width <= i32::MAX,
        height <= i32::MAX,
    ensures
        r is Ok,
        r matches Ok(b) ==> b@ == epd_frame(width, height, points@) && b@.len() == (width + 7)
            / 8 * height,
{
    let len = epd_waveshare::buffer_len(width as usize, height as usize);
    let mut buf = vec![Color::White.get_byte_value(); len];
    let mut display = VarDisplay::new(width, height, &mut buf, false)?;
    let colored = points.iter().map(|&(x, y, black)| {
        embedded_graphics::Pixel(Point::new(x, y), if black { Color::Black } else { Color::White })
    });
    let _ = display.draw_iter(colored);
    Ok(buf)
}

/// An RGBA color with eight bits per channel.
#[derive(Clone, Copy, Debug, PartialEq, Eq, Structural)]
pub struct Rgba {
    pub r: u8,
    pub g: u8,
    pub b: u8,
    pub a: u8,
}

pub open spec fn black() -> Rgba {
    Rgba { r: 0, g: 0, b: 0, a: 255 }
}

pub open spec fn white() -> Rgba {
    Rgba { r: 255, g: 255, b: 255, a: 255 }
}

pub open spec fn transparent() -> Rgba {
    Rgba { r: 0, g: 0, b: 0, a: 0 }
}

impl Rgba {
    pub fn black() -> (c: Rgba)
        ensures
            c == black(),
    {
        Rgba { r: 0, g: 0, b: 0, a: 255 }
    }

    pub fn white() -> (c: Rgba)
        ensures
            c == white(),
    {
        Rgba { r: 255, g: 255, b: 255, a: 255 }
    }

    pub fn transparent() -> (c: Rgba)
        ensures
            c == transparent(),
    {
        Rgba { r: 0, g: 0, b: 0, a: 0 }
    }
}

/// The color complement of `c`; its alpha is kept.
pub open spec fn invert_color(c: Rgba) -> Rgba {
    Rgba { r: (255 - c.r) as u8, g: (255 - c.g) as u8, b: (255 - c.b) as u8, a: c.a }
}

pub open spec fn inverted(s: Seq<Rgba>) -> Seq<Rgba> {
    Seq::new(s.len(), |i: int| invert_color(s[i]))
}

/// Inverting every pixel twice gives back every pixel's color.
pub proof fn lemma_invert_twice(s: Seq<Rgba>)
    ensures
        inverted(inverted(s)) == s,
{
    assert(inverted(inverted(s)) =~= s);
}

/// Every pixel of `b` is that of `a` or black.
pub open spec fn only_blackened(a: Seq<Rgba>, b: Seq<Rgba>) -> bool {
    &&& b.len() == a.len()
    &&& forall|i: int| 0 <= i < a.len() ==> #[trigger] b[i] == a[i] || b[i] == black()
}

/// Blackening pixels twice is blackening them once.
pub proof fn lemma_only_blackened_trans(a: Seq<Rgba>, b: Seq<Rgba>, c: Seq<Rgba>)
    requires
        only_blackened(a, b),
        only_blackened(b, c),
    ensures
        only_blackened(a, c),
{
    assert forall|i: int| 0 <= i < a.len() implies #[trigger] c[i] == a[i] || c[i] == black() by {
        assert(c[i] == b[i] || c[i] == black());
        assert(b[i] == a[i] || b[i] == black());
    }
}

/// Index of pixel `(x, y)` in a row-major buffer `w` pixels wide.
pub open spec fn index_of(w: int, x: int, y: int) -> int {
    y * w + x
}

pub proof fn lemma_index_in_range(w: int, h: int, x: int, y: int)
    requires
        0 <= x < w,
        0 <= y < h,
    ensures
        0 <= index_of(w, x, y) < w * h,
{
    assert(0 <= y * w + x < w * h) by (nonlinear_arith)
        requires
            0 <= x < w,
            0 <= y < h,
    ;
}

proof fn lemma_index_before(w: int, x: int, y: int, row: int)
    requires
        0 <= x < w,
        0 <= y < row,
    ensures
        0 <= index_of(w, x, y) < row * w,
{
    assert(0 <= y * w + x < row * w) by (nonlinear_arith)
        requires
            0 <= x < w,
            0 <= y < row,
    ;
}

/// The pixels of a sprite of `sw` by `sh` drawn with its top-left corner at `(x, y)` over
/// the `w`-wide `dst`: a sprite pixel that is not transparent replaces the one below it,
/// a transparent one leaves it; what falls outside is clipped.
pub open spec fn overlaid(
    dst: Seq<Rgba>,
    w: int,
    src: Seq<Rgba>,
    sw: int,
    sh: int,
    x: int,
    y: int,
) -> Seq<Rgba> {
    Seq::new(
        dst.len(),
        |i: int|
            {
                let sx = i % w - x;
                let sy = i / w - y;
                if 0 <= sx < sw && 0 <= sy < sh && src[index_of(sw, sx, sy)].a != 0 {
                    src[index_of(sw, sx, sy)]
                } else {
                    dst[i]
                }
            },
    )
}

/// Every pixel is fully opaque or fully transparent.
pub open spec fn keyed(s: Seq<Rgba>) -> bool {
    forall|i: int| 0 <= i < s.len() ==> #[trigger] s[i].a == 0 || s[i].a == 255
}

/// Relies on image::imageops::overlay, which blends each pixel of `top` that falls on
/// `bottom` into it; a blend with alpha 0 keeps the pixel below and one with full alpha
/// replaces it.
#[verifier::external_body]
fn overlay_pixels(
    pixels: &mut Vec<Rgba>,
    width: u32,
    height: u32,
    sprite: &Vec<Rgba>,
    sw: u32,
    sh: u32,
    x: i64,
    y: i64,
)
    requires
        old(pixels)@.len() == width * height,
        sprite@.len() == sw * sh,
        keyed(sprite@),
        width > 0,
    ensures
        final(pixels)@ == overlaid(old(pixels)@, width as int, sprite@, sw as int, sh as int, x as int, y as int),
{
    let raw = |v: &Vec<Rgba>| v.iter().flat_map(|c| [c.r, c.g, c.b, c.a]).collect::<Vec<u8>>();
    let mut bottom = image::RgbaImage::from_raw(width, height, raw(pixels)).unwrap();
    let top = image::RgbaImage::from_raw(sw, sh, raw(sprite)).unwrap();
    image::imageops::overlay(&mut bottom, &top, x, y);
    *pixels = bottom.pixels().map(|p| Rgba { r: p[0], g: p[1], b: p[2], a: p[3] }).collect();
}

/// Channel `k` of `c`: red, green, blue, then alpha.
pub open spec fn channel(c: Rgba, k: int) -> u8 {
    if k == 0 {
        c.r
    } else if k == 1 {
        c.g
    } else if k == 2 {
        c.b
    } else {
        c.a
    }
}

/// The pixels as bytes, four per pixel.
pub open spec fn flat_rgba(s: Seq<Rgba>) -> Seq<u8> {
    Seq::new(4 * s.len(), |i: int| channel(s[i / 4], i % 4))
}

/// The pixels of `img` turned a quarter clockwise, row by row.
pub open spec fn rotated(img: Image) -> Seq<Rgba> {
    Seq::new(
        img.pixels@.len(),
        |i: int| img.pixel(i / (img.height as int), img.height - 1 - i % (img.height as int)),
    )
}

/// Each pixel of a `w`-wide buffer as a panel point, black or not.
pub open spec fn panel_points(s: Seq<Rgba>, w: int) -> Seq<(i32, i32, bool)> {
    Seq::new(s.len(), |i: int| ((i % w) as i32, (i / w) as i32, s[i] == black()))
}

/// A canvas of `width` by `height` pixels, stored row by row.
#[derive(Clone, Debug)]
pub struct Image {
    pub width: u32,
    pub height: u32,
    pub pixels: Vec<Rgba>,
}

impl Image {
    pub open spec fn wf(&self) -> bool {
        &&& self.pixels@.len() == self.width * self.height
        &&& self.width * self.height <= usize::MAX
    }

    pub open spec fn pixel(&self, x: int, y: int) -> Rgba {
        self.pixels@[index_of(self.width as int, x, y)]
    }

    pub open spec fn in_bounds(&self, x: int, y: int) -> bool {
        0 <= x < self.width && 0 <= y < self.height
    }

    /// A white canvas.
    pub fn new(width: u32, height: u32) -> (img: Image)
        requires
            width * height <= usize::MAX,
        ensures
            img.wf(),
            img.width == width,
            img.height == height,
            forall|i: int| 0 <= i < img.pixels@.len() ==> #[trigger] img.pixels@[i] == white(),
    {
        let n: usize = (width as usize) * (height as usize);
        let mut pixels: Vec<Rgba> = Vec::new();
        let mut i: usize = 0;
        while i < n
            invariant
                i <= n,
                pixels@.len() == i,
                forall|j: int| 0 <= j < i ==> #[trigger] pixels@[j] == white(),
            decreases n - i,
        {
            pixels.push(Rgba::white());
            i = i + 1;
        }
        Image { width, height, pixels }
    }

    pub fn width(&self) -> (r: u32)
        ensures
            r == self.width,
    {
        self.width
    }

    pub fn height(&self) -> (r: u32)
        ensures
            r == self.height,
    {
        self.height
    }

    /// The color at `(x, y)`.
    pub fn get_pixel(&self, x: u32, y: u32) -> (c: Rgba)
        requires
            self.wf(),
            x < self.width,
            y < self.height,
        ensures
            c == self.pixel(x as int, y as int),
    {
        proof {
            lemma_index_in_range(self.width as int, self.height as int, x as int, y as int);
        }
        self.pixels[(y as usize) * (self.width as usize) + (x as usize)]
    }

    /// Blackens the pixel at `(x, y)`; a point off the canvas is ignored.
    pub fn draw_pixel(&mut self, x: i64, y: i64)
        requires
            old(self).wf(),
        ensures
            final(self).wf(),
            final(self).width == old(self).width,
            final(self).height == old(self).height,
            old(self).in_bounds(x as int, y as int) ==> final(self).pixels@ == old(
                self,
            ).pixels@.update(index_of(old(self).width as int, x as int, y as int), black()),
            !old(self).in_bounds(x as int, y as int) ==> final(self).pixels@ == old(self).pixels@,
            only_blackened(old(self).pixels@, final(self).pixels@),
    {
        if x >= 0 && x < self.width as i64 && y >= 0 && y < self.height as i64 {
            proof {
                lemma_index_in_range(self.width as int, self.height as int, x as int, y as int);
            }
            let i: usize = (y as usize) * (self.width as usize) + (x as usize);
            self.pixels.set(i, Rgba::black());
        }
    }

    /// Replaces every pixel's color by its complement, for night mode.
    pub fn invert_pixels(&mut self)
        requires
            old(self).wf(),
        ensures
            final(self).wf(),
            final(self).width == old(self).width,
            final(self).height == old(self).height,
            final(self).pixels@ == inverted(old(self).pixels@),
    {
        let n = self.pixels.len();
        let mut i: usize = 0;
        while i < n
            invariant
                n == self.pixels@.len(),
                n == old(self).pixels@.len(),
                self.width == old(self).width,
                self.height == old(self).height,
                i <= n,
                forall|j: int| 0 <= j < i ==> #[trigger] self.pixels@[j] == invert_color(old(self).pixels@[j]),
                forall|j: int| i <= j < n ==> #[trigger] self.pixels@[j] == old(self).pixels@[j],
            decreases n - i,
        {
            let c = self.pixels[i];
            let inv = Rgba { r: 255 - c.r, g: 255 - c.g, b: 255 - c.b, a: c.a };
            self.pixels.set(i, inv);
            i = i + 1;
        }
        assert(self.pixels@ =~= inverted(old(self).pixels@));
    }

    /// Draws the keyed pixels `sprite` (`sw` by `sh`) with its top-left corner at `(x, y)`.
    pub fn overlay(&mut self, sprite: &Vec<Rgba>, sw: u32, sh: u32, x: i64, y: i64)
        requires
            old(self).wf(),
            sprite@.len() == sw * sh,
            keyed(sprite@),
        ensures
            final(self).wf(),
            final(self).width == old(self).width,
            final(self).height == old(self).height,
            old(self).width > 0 ==> final(self).pixels@ == overlaid(
                old(self).pixels@,
                old(self).width as int,
                sprite@,
                sw as int,
                sh as int,
                x as int,
                y as int,
            ),
            old(self).width == 0 ==> final(self).pixels@ == old(self).pixels@,
    {
        if self.width > 0 {
            overlay_pixels(&mut self.pixels, self.width, self.height, sprite, sw, sh, x, y);
        }
    }

    /// The canvas turned a quarter clockwise: `height` wide and `width` high, the left
    /// column becoming the top row.
    pub fn rotate90(&self) -> (r: Image)
        requires
            self.wf(),
        ensures
            r.wf(),
            r.width == self.height,
            r.height == self.width,
            forall|x: int, y: int|
                0 <= x < r.width && 0 <= y < r.height ==> #[trigger] r.pixel(x, y) == self.pixel(
                    y,
                    self.height - 1 - x,
                ),
            r.pixels@ == rotated(*self),
    {
        let w = self.height;
        let h = self.width;
        let mut pixels: Vec<Rgba> = Vec::new();
        let mut y: u32 = 0;
        while y < h
            invariant
                self.wf(),
                w == self.height,
                h == self.width,
                y <= h,
                pixels@.len() == y * w,
                forall|px: int, py: int|
                    0 <= px < w && 0 <= py < y ==> #[trigger] pixels@[index_of(w as int, px, py)]
                        == self.pixel(py, self.height - 1 - px),
            decreases h - y,
        {
            let mut x: u32 = 0;
            while x < w
                invariant
                    self.wf(),
                    w == self.height,
                    h == self.width,
                    y < h,
                    x <= w,
                    pixels@.len() == y * w + x,
                    forall|px: int, py: int|
                        0 <= px < w && 0 <= py < y ==> #[trigger] pixels@[index_of(w as int, px, py)]
                            == self.pixel(py, self.height - 1 - px),
                    forall|px: int|
                        0 <= px < x ==> #[trigger] pixels@[index_of(w as int, px, y as int)]
                            == self.pixel(y as int, self.height - 1 - px),
                decreases w - x,
            {
                let c = self.get_pixel(y, w - 1 - x);
                let ghost before = pixels@;
                pixels.push(c);
                proof {
                    assert forall|px: int, py: int|
                        0 <= px < w && 0 <= py < y implies #[trigger] pixels@[index_of(
                            w as int,
                            px,
                            py,
                        )] == self.pixel(py, self.height - 1 - px) by {
                        lemma_index_before(w as int, px, py, y as int);
                        assert(pixels@[index_of(w as int, px, py)] == before[index_of(
                            w as int,
                            px,
                            py,
                        )]);
                    }
                }
                x = x + 1;
            }
            proof {
                assert((y + 1) * w == y * w + w) by (nonlinear_arith);
                assert forall|px: int, py: int|
                    0 <= px < w && 0 <= py < y + 1 implies #[trigger] pixels@[index_of(w as int, px, py)]
                        == self.pixel(py, self.height - 1 - px) by {
                    if py < y {
                    } else {
                        assert(py == y);
                    }
                }
            }
            y = y + 1;
        }
        proof {
            assert(pixels@.len() == w * h) by (nonlinear_arith)
                requires
                    pixels@.len() == h * w,
            ;
            if w > 0 {
                assert forall|i: int| 0 <= i < pixels@.len() implies #[trigger] pixels@[i]
                    == rotated(*self)[i] by {
                    let px = i % (w as int);
                    let py = i / (w as int);
                    vstd::arithmetic::div_mod::lemma_fundamental_div_mod(i, w as int);
                    assert(py < h) by (nonlinear_arith)
                        requires
                            i < h * w,
                            py == i / (w as int),
                            w > 0,
                            i >= 0,
                    ;
                    assert(0 <= px < w);
                    assert(index_of(w as int, px, py) == i) by (nonlinear_arith)
                        requires
                            i == (w as int) * py + px,
                    ;
                }
            }
            assert(pixels@ =~= rotated(*self));
        }
        Image { width: w, height: h, pixels }
    }
    /// The pixels as bytes, four per pixel, row by row.
    pub fn rgba_bytes(&self) -> (r: Vec<u8>)
        requires
            self.wf(),
        ensures
            r@ == flat_rgba(self.pixels@),
    {
        let mut out: Vec<u8> = Vec::new();
        let mut i: usize = 0;
        while i < self.pixels.len()
            invariant
                self.wf(),
                i <= self.pixels@.len(),
                out@.len() == 4 * i,
                forall|j: int| 0 <= j < 4 * i ==> #[trigger] out@[j] == channel(self.pixels@[j / 4], j % 4),
            decreases self.pixels@.len() - i,
        {
            let c = self.pixels[i];
            out.push(c.r);
            out.push(c.g);
            out.push(c.b);
            out.push(c.a);
            i = i + 1;
        }
        assert(out@ =~= flat_rgba(self.pixels@));
        out
    }

    /// Packs the canvas, turned a quarter clockwise, into the e-paper panel's buffer: black
    /// pixels black, any other white.
    pub fn encode_epd(&self) -> (r: Result<Vec<u8>, Error>)
        requires
            self.wf(),
            self.width <= i32::MAX,
            self.height <= i32::MAX,
        ensures
            r matches Ok(b) && b@ == epd_frame(
                PANEL_WIDTH,
                PANEL_HEIGHT,
                panel_points(rotated(*self), self.height as int),
            ) && b@.len() == 4736,
    {
        let img = self.rotate90();
        let mut points: Vec<(i32, i32, bool)> = Vec::new();
        let mut i: usize = 0;
        let w = img.width as usize;
        while i < img.pixels.len()
            invariant
                img.wf(),
                img.width == self.height,
                img.width <= i32::MAX,
                img.height <= i32::MAX,
                w == img.width,
                i <= img.pixels@.len(),
                points@.len() == i,
                forall|j: int|
                    0 <= j < i ==> #[trigger] points@[j] == panel_points(img.pixels@, w as int)[j],
            decreases img.pixels@.len() - i,
        {
            proof {
                assert(w > 0) by (nonlinear_arith)
                    requires
                        i < img.pixels@.len(),
                        img.pixels@.len() == img.width * img.height,
                        w == img.width,
                ;
                assert(i / w <= i);
                assert(i / w < img.height) by (nonlinear_arith)
                    requires
                        i < img.width * img.height,
                        w == img.width,
                        w > 0,
                ;
            }
            let x: i32 = (i % w) as i32;
            let y: i32 = (i / w) as i32;
            let c = img.pixels[i];
            let black = c.r == 0 && c.g == 0 && c.b == 0 && c.a == 255;
            points.push((x, y, black));
            i = i + 1;
        }
        assert(points@ =~= panel_points(img.pixels@, w as int));
        match pack_panel_buffer(&points, PANEL_WIDTH, PANEL_HEIGHT) {
            Ok(buf) => Ok(buf),
            Err(_) => Err(Error::Display),
        }
    }

    /// Encodes the canvas in `format`, with a MIME type for serving the bytes.
    pub fn encode(&self, format: ImageFormat) -> (r: Result<(Vec<u8>, &'static str), Error>)
        requires
            self.wf(),
            self.width <= i32::MAX,
            self.height <= i32::MAX,
        ensures
            format == ImageFormat::Epd ==> (r matches Ok((b, m)) && m@ == mime_of(format) && b@
                == epd_frame(
                PANEL_WIDTH,
                PANEL_HEIGHT,
                panel_points(rotated(*self), self.height as int),
            ) && b@.len() == 4736),
            format != ImageFormat::Epd ==> match raster_file(
                raster_of(format),
                self.width,
                self.height,
                flat_rgba(self.pixels@),
            ) {
                Some(f) => r matches Ok((b, m)) && m@ == mime_of(format) && b@ == f,
                None => r matches Err(e) && e == Error::Encoding,
            },
    {
        let bytes = match format {
            ImageFormat::Epd => self.encode_epd(),
            ImageFormat::Png => self.encode_as(RasterFormat::Png),
            ImageFormat::Gif => self.encode_as(RasterFormat::Gif),
            ImageFormat::Bmp => self.encode_as(RasterFormat::Bmp),
        };
        match bytes {
            Ok(b) => Ok((b, format.mime_type())),
            Err(e) => Err(e),
        }
    }

    fn encode_as(&self, format: RasterFormat) -> (r: Result<Vec<u8>, Error>)
        requires
            self.wf(),
        ensures
            match raster_file(format, self.width, self.height, flat_rgba(self.pixels@)) {
                Some(f) => r matches Ok(b) && b@ == f,
                None => r matches Err(e) && e == Error::Encoding,
            },
    {
        let raw = self.rgba_bytes();
        assert(4 * self.width * self.height == 4 * (self.width * self.height)) by (nonlinear_arith);
        match write_raster(&raw, self.width, self.height, format) {
            Ok(b) => Ok(b),
            Err(_) => Err(Error::Encoding),
        }
    }
}

} // verus!
