//! What the painter draws with: the four NeXT grays, the fonts, text alignment and decoded images.
use crate::geom::Rect;
use vstd::prelude::*;

verus! {

pub const BLACK: u32 = 0x000000;

pub const DARK: u32 = 0x555555;

pub const LIGHT: u32 = 0xaaaaaa;

pub const WHITE: u32 = 0xffffff;

#[derive(Clone, Copy, PartialEq, Eq, Hash, Debug, Structural)]
pub enum FontId {
    Regular,
    Bold,
    Mono,
}

#[derive(Clone, Copy, PartialEq, Eq, Debug, Structural)]
pub enum Align {
    Left,
    Center,
}

/// A decoded image: `w`×`h` premultiplied RGBA pixels, row by row.
pub struct Image {
    pub w: u32,
    pub h: u32,
    pub px: Vec<[u8; 4]>,
}

impl Image {
    /// The pixels fill the `w`×`h` grid, and every index into it fits in a `u32`.
    pub open spec fn wf(&self) -> bool {
        self.px@.len() == self.w * self.h && self.w * self.h <= u32::MAX
    }

    /// The pixel in column `x` of row `y`.
    pub open spec fn texel(&self, x: int, y: int) -> [u8; 4] {
        self.px@[y * self.w + x]
    }
}

/// The image row (or column) that device offset `i` samples when an image `size` pixels
/// long is stretched over `span` device pixels starting at `origin`.
pub open spec fn sample(i: int, origin: int, span: int, size: int) -> int {
    let s = (i - origin) * size / span;
    if s <= size - 1 { s } else { size - 1 }
}

/// Destination pixel `d` at device (`x`, `y`) after `img`, stretched over `dst`, is laid on it.
pub open spec fn drawn(img: &Image, dst: Rect, opacity: u8, x: int, y: int, d: u32) -> u32 {
    let p = img.texel(sample(x, dst.x as int, dst.w as int, img.w as int), sample(y, dst.y as int, dst.h as int, img.h as int));
    if p@[3] == 0 { d } else { over(d, p, opacity) }
}

/// Whether stretching an image `size` pixels long over `span` device pixels keeps the
/// sampling arithmetic within `u32`.
pub open spec fn stretch_fits(span: int, size: int) -> bool {
    span <= 0 || (span - 1) * size <= u32::MAX
}

fn sample_exec(i: i32, origin: i32, span: i32, size: u32) -> (s: u32)
    requires
        origin <= i < origin + span,
        size >= 1,
        stretch_fits(span as int, size as int),
    ensures
        s == sample(i as int, origin as int, span as int, size as int),
        s < size,
{
    let off = (i as i64 - origin as i64) as u32;
    assert(off * size <= (span - 1) * size) by (nonlinear_arith)
        requires
            0 <= off <= span - 1,
            0 <= size,
    ;
    let q = off * size / (span as u32);
    if q <= size - 1 { q } else { size - 1 }
}

/// The first frame that png's decoder makes of the PNG file `bytes` when told to normalise
/// every image to 8-bit samples: width, height, PNG colour-type code and samples, row by row;
/// or the decoder's error message.
pub uninterp spec fn png_decoded(bytes: Seq<u8>) -> Result<(u32, u32, u8, Seq<u8>), Seq<char>>;

/// The PNG file that png's encoder writes for a `w`×`h` frame of 8-bit samples `data`
/// with PNG colour-type code `code`.
pub uninterp spec fn png_encoded(w: u32, h: u32, code: u8, data: Seq<u8>) -> Seq<u8>;

/// Runs png's decoder over `bytes`: `Decoder::new` with
/// `Transformations::normalize_to_color8`, `read_info`, then `Reader::next_frame` into a
/// buffer of `output_buffer_size` bytes, kept to the frame's `buffer_size`. Claimed: the
/// result is `png_decoded(bytes)`; and as the crate's source computes the frame's size, an
/// 8-bit RGB frame (code 2) holds three bytes a pixel and an RGBA frame (code 6) four.
#[verifier::external_body]
fn png_frame(bytes: &[u8]) -> (r: Result<(u32, u32, u8, Vec<u8>), String>)
    ensures
        r matches Ok((w, h, c, d)) ==> (png_decoded(bytes@) matches Ok(t) && t == (w, h, c, d@)),
        r matches Err(e) ==> (png_decoded(bytes@) matches Err(m) && m == e@),
        r matches Ok((w, h, c, d)) ==> (c == 2 ==> d@.len() == 3 * w * h) && (c == 6 ==> d@.len() == 4 * w * h),
{
    let mut dec = png::Decoder::new(std::io::Cursor::new(bytes));
    dec.set_transformations(png::Transformations::normalize_to_color8());
    let mut reader = dec.read_info().map_err(|e| e.to_string())?;
    let mut buf = vec![0; reader.output_buffer_size().unwrap_or(0)];
    let info = reader.next_frame(&mut buf).map_err(|e| e.to_string())?;
    buf.truncate(info.buffer_size());
    Ok((info.width, info.height, info.color_type as u8, buf))
}

/// Runs png's `Encoder` on a `w`×`h` frame of 8-bit RGB samples (RGBA where `alpha`):
/// `set_color`, `set_depth(Eight)`, `write_header`, `write_image_data`. Claimed: the file is
/// `png_encoded` of the frame. The encoder refuses an empty frame and samples of the wrong
/// length, which `requires` leaves out.
#[verifier::external_body]
fn png_file(w: u32, h: u32, alpha: bool, data: &[u8]) -> (r: Vec<u8>)
    requires
        w >= 1,
        h >= 1,
        data@.len() == (if alpha { 4int } else { 3int }) * w * h,
    ensures
        r@ == png_encoded(w, h, if alpha { 6u8 } else { 2u8 }, data@),
{
    let mut out = Vec::new();
    {
        let mut enc = png::Encoder::new(&mut out, w, h);
        enc.set_color(if alpha { png::ColorType::Rgba } else { png::ColorType::Rgb });
        enc.set_depth(png::BitDepth::Eight);
        enc.write_header().unwrap().write_image_data(data).unwrap();
    }
    out
}

/// Bytes a pixel takes in an 8-bit frame of PNG colour type `code`, for the two types an
/// image is made from (RGB and RGBA); 0 for the others.
pub open spec fn samples_of(code: u8) -> int {
    if code == 2 {
        3
    } else if code == 6 {
        4
    } else {
        0
    }
}

/// Sample `v` multiplied by alpha `a`, rounded.
pub open spec fn premul(v: u8, a: int) -> u8 {
    ((v * a + 127) / 255) as u8
}

/// Pixel `i` of an 8-bit frame with `n` bytes a pixel, premultiplied; without an alpha
/// sample the pixel is opaque.
pub open spec fn premultiplied(data: Seq<u8>, n: int, i: int) -> Seq<u8> {
    let a: int = if n == 4 { data[i * n + 3] as int } else { 255 };
    seq![premul(data[i * n], a), premul(data[i * n + 1], a), premul(data[i * n + 2], a), a as u8]
}

/// What an image made from a `w`×`h` frame of colour type `code` and samples `data` is: an
/// error for a colour type that is neither RGB nor RGBA, else the premultiplied pixels.
pub open spec fn frame_image(r: Result<Image, String>, w: u32, h: u32, code: u8, data: Seq<u8>) -> bool {
    if samples_of(code) == 0 {
        r matches Err(e) && e@ == "unsupported PNG color type"@
    } else {
        r matches Ok(img) && made_from(img, w, h, code, data)
    }
}

/// Whether `img` holds the premultiplied pixels of a `w`×`h` RGB or RGBA frame.
pub open spec fn made_from(img: Image, w: u32, h: u32, code: u8, data: Seq<u8>) -> bool {
    &&& img.w == w
    &&& img.h == h
    &&& img.px@.len() == data.len() as int / samples_of(code)
    &&& forall|i: int| 0 <= i < img.px@.len() ==> #[trigger] img.px@[i]@ == premultiplied(data, samples_of(code), i)
}

fn premul_exec(v: u8, a: u32) -> (r: u8)
    requires
        a <= 255,
    ensures
        r == premul(v, a as int),
{
    assert(v * a + 127 <= 255 * 255 + 127) by (nonlinear_arith)
        requires
            v <= 255,
            a <= 255,
    ;
    assert((v * a + 127) / 255 <= 255) by (nonlinear_arith)
        requires
            v * a + 127 <= 255 * 255 + 127,
    ;
    ((v as u32 * a + 127) / 255) as u8
}

/// Makes an image of a decoded `w`×`h` frame of 8-bit samples `data` with PNG colour type
/// `code`: RGB and RGBA pixels are premultiplied, trailing bytes short of a pixel dropped.
pub fn image_from_frame(w: u32, h: u32, code: u8, data: &[u8]) -> (r: Result<Image, String>)
    ensures
        frame_image(r, w, h, code, data@),
{
    let n: usize = if code == 2 {
        3
    } else if code == 6 {
        4
    } else {
        return Err(String::from_str("unsupported PNG color type"));
    };
    let mut px: Vec<[u8; 4]> = Vec::new();
    let mut k: usize = 0;
    while n <= data.len() - k
        invariant
            n == samples_of(code),
            n == 3 || n == 4,
            k == px@.len() * n,
            k <= data@.len(),
            forall|i: int| 0 <= i < px@.len() ==> #[trigger] px@[i]@ == premultiplied(data@, n as int, i),
        decreases data@.len() - k,
    {
        let a: u32 = if n == 4 { data[k + 3] as u32 } else { 255 };
        let p: [u8; 4] = [premul_exec(data[k], a), premul_exec(data[k + 1], a), premul_exec(data[k + 2], a), a as u8];
        let ghost i = px@.len() as int;
        assert(p@ =~= premultiplied(data@, n as int, i));
        px.push(p);
        assert(k + n == px@.len() * n) by (nonlinear_arith)
            requires
                k == i * n,
                px@.len() == i + 1,
        ;
        k += n;
    }
    let ghost cnt = px@.len() as int;
    assert(cnt == data@.len() as int / (n as int)) by (nonlinear_arith)
        requires
            k == cnt * n,
            k <= data@.len() < k + n,
            n > 0,
    ;
    Ok(Image { w, h, px })
}

/// Decodes a PNG file into a premultiplied image.
pub fn decode_png(bytes: &[u8]) -> (r: Result<Image, String>)
    ensures
        png_decoded(bytes@) matches Err(e) ==> r matches Err(m) && m@ == e,
        png_decoded(bytes@) matches Ok((w, h, c, d)) ==> frame_image(r, w, h, c, d),
{
    match png_frame(bytes) {
        Ok((w, h, c, d)) => image_from_frame(w, h, c, d.as_slice()),
        Err(e) => Err(e),
    }
}

/// One byte of a 0RGB pixel: red, green or blue for `k` 0, 1 or 2.
pub open spec fn rgb_byte(p: u32, k: int) -> u8 {
    if k == 0 {
        (p >> 16u32) as u8
    } else if k == 1 {
        (p >> 8u32) as u8
    } else {
        p as u8
    }
}

/// 0RGB pixels as RGB bytes.
pub open spec fn rgb_bytes(px: Seq<u32>) -> Seq<u8> {
    Seq::new(3 * px.len(), |k: int| rgb_byte(px[k / 3], k % 3))
}

/// Encodes a `w`×`h` 0RGB frame as an 8-bit RGB PNG file.
pub fn encode_png(w: u32, h: u32, px: &[u32]) -> (r: Vec<u8>)
    requires
        w >= 1,
        h >= 1,
        px@.len() == w * h,
    ensures
        r@ == png_encoded(w, h, 2, rgb_bytes(px@)),
{
    let mut data: Vec<u8> = Vec::new();
    let mut i: usize = 0;
    while i < px.len()
        invariant
            i <= px@.len(),
            data@ =~= rgb_bytes(px@.take(i as int)),
        decreases px@.len() - i,
    {
        let p = px[i];
        data.push((p >> 16) as u8);
        data.push((p >> 8) as u8);
        data.push(p as u8);
        i += 1;
        assert(data@ =~= rgb_bytes(px@.take(i as int)));
    }
    assert(px@.take(px@.len() as int) =~= px@);
    assert(data@.len() == 3 * w * h) by (nonlinear_arith)
        requires
            data@.len() == 3 * px@.len(),
            px@.len() == w * h,
    ;
    png_file(w, h, false, data.as_slice())
}

/// Encodes straight (not premultiplied) 8-bit RGBA samples as a PNG file.
pub fn encode_png_rgba(w: u32, h: u32, rgba: &[u8]) -> (r: Vec<u8>)
    requires
        w >= 1,
        h >= 1,
        rgba@.len() == 4 * w * h,
    ensures
        r@ == png_encoded(w, h, 6, rgba@),
{
    png_file(w, h, true, rgba)
}

/// Premultiplied sample `c` with alpha `a`, made straight again; a transparent pixel's
/// samples are 0.
pub open spec fn unpremul(c: u8, a: u8) -> u8 {
    if a == 0 {
        0
    } else if (c * 255 + a / 2) / (a as int) <= 255 {
        ((c * 255 + a / 2) / (a as int)) as u8
    } else {
        255
    }
}

fn unpremul_exec(c: u8, a: u8) -> (r: u8)
    ensures
        r == unpremul(c, a),
{
    if a == 0 {
        return 0;
    }
    let v = (c as u32 * 255 + (a as u32) / 2) / (a as u32);
    if v <= 255 { v as u8 } else { 255 }
}

/// An image's size and its pixels as straight RGBA bytes (what cursors take).
pub fn rgba(img: &Image) -> (r: (u32, u32, Vec<u8>))
    ensures
        r.0 == img.w,
        r.1 == img.h,
        r.2@.len() == 4 * img.px@.len(),
        forall|i: int, k: int|
            0 <= i < img.px@.len() && 0 <= k < 3 ==> #[trigger] r.2@[4 * i + k] == unpremul(img.px@[i]@[k], img.px@[i]@[3]),
        forall|i: int| 0 <= i < img.px@.len() ==> #[trigger] r.2@[4 * i + 3] == img.px@[i]@[3],
{
    let mut out: Vec<u8> = Vec::new();
    let mut i: usize = 0;
    while i < img.px.len()
        invariant
            i <= img.px@.len(),
            out@.len() == 4 * i,
            forall|j: int, k: int|
                0 <= j < i && 0 <= k < 3 ==> #[trigger] out@[4 * j + k] == unpremul(img.px@[j]@[k], img.px@[j]@[3]),
            forall|j: int| 0 <= j < i ==> #[trigger] out@[4 * j + 3] == img.px@[j]@[3],
        decreases img.px@.len() - i,
    {
        let p = img.px[i];
        out.push(unpremul_exec(p[0], p[3]));
        out.push(unpremul_exec(p[1], p[3]));
        out.push(unpremul_exec(p[2], p[3]));
        out.push(p[3]);
        i += 1;
    }
    (img.w, img.h, out)
}

/// One channel of a premultiplied source `s` laid over destination `d`, where `inv` is
/// 255 less the source's alpha.
pub open spec fn mix(s: int, d: int, inv: int) -> int {
    if s + d * inv / 255 <= 255 { s + d * inv / 255 } else { 255 }
}

/// Premultiplied RGBA pixel `p`, faded by `opacity`, laid over 0RGB pixel `d`.
pub open spec fn over(d: u32, p: [u8; 4], opacity: u8) -> u32 {
    let sa = p@[3] * opacity / 255;
    let inv = 255 - sa;
    let r = mix(p@[0] * opacity / 255, ((d >> 16u32) & 255u32) as int, inv);
    let g = mix(p@[1] * opacity / 255, ((d >> 8u32) & 255u32) as int, inv);
    let b = mix(p@[2] * opacity / 255, (d & 255u32) as int, inv);
    ((r as u32) << 16u32) | ((g as u32) << 8u32) | (b as u32)
}

fn fade(v: u8, opacity: u8) -> (r: u32)
    ensures
        r == v * opacity / 255,
        r <= 255,
{
    assert(v as u32 * opacity as u32 <= 255 * 255) by (nonlinear_arith)
        requires
            v <= 255,
            opacity <= 255,
    ;
    assert((v * opacity) / 255 <= 255) by (nonlinear_arith)
        requires
            v * opacity <= 255 * 255,
    ;
    (v as u32 * opacity as u32) / 255
}

fn mix_channel(s: u32, d: u32, inv: u32) -> (r: u32)
    requires
        s <= 255,
        d <= 255,
        inv <= 255,
    ensures
        r == mix(s as int, d as int, inv as int),
        r <= 255,
{
    assert(d * inv <= 255 * 255) by (nonlinear_arith)
        requires
            d <= 255,
            inv <= 255,
    ;
    let v = s + d * inv / 255;
    if v <= 255 { v } else { 255 }
}

fn over_px(d: u32, p: [u8; 4], opacity: u8) -> (r: u32)
    ensures
        r == over(d, p, opacity),
{
    let sr = fade(p[0], opacity);
    let sg = fade(p[1], opacity);
    let sb = fade(p[2], opacity);
    let sa = fade(p[3], opacity);
    let dr = (d >> 16) & 255;
    let dg = (d >> 8) & 255;
    let db = d & 255;
    assert(((d >> 16u32) & 255u32) <= 255 && ((d >> 8u32) & 255u32) <= 255 && (d & 255u32) <= 255)
        by (bit_vector);
    let inv = 255 - sa;
    let r = mix_channel(sr, dr, inv);
    let g = mix_channel(sg, dg, inv);
    let b = mix_channel(sb, db, inv);
    (r << 16) | (g << 8) | b
}

/// A frame buffer: `w`×`h` 0RGB pixels, row by row.
pub struct Frame<'a> {
    pub w: u32,
    pub h: u32,
    pub px: &'a mut [u32],
}

/// Whether device pixel (`x`, `y`) lies in `r`.
pub open spec fn covers(r: Rect, x: int, y: int) -> bool {
    r.x <= x < r.right_spec() && r.y <= y < r.bottom_spec()
}

/// Whether `r` lies within a `w`×`h` frame.
pub open spec fn within(r: Rect, w: int, h: int) -> bool {
    0 <= r.x && 0 <= r.y && 0 <= r.w && 0 <= r.h && r.right_spec() <= w && r.bottom_spec() <= h
}

/// The index of pixel (`x`, `y`) in a frame `w` pixels wide.
pub open spec fn at_xy(w: int, x: int, y: int) -> int {
    y * w + x
}

proof fn lemma_index(w: int, x: int, y: int, h: int)
    requires
        0 <= x < w,
        0 <= y < h,
    ensures
        0 <= at_xy(w, x, y) < w * h,
        at_xy(w, x, y) + 1 <= (y + 1) * w,
{
    assert(y * w + x < w * h) by (nonlinear_arith)
        requires
            0 <= x < w,
            0 <= y < h,
    ;
    assert(0 <= y * w) by (nonlinear_arith)
        requires
            0 <= y,
            0 <= w,
    ;
    assert((y + 1) * w == y * w + w) by (nonlinear_arith);
}

proof fn lemma_index_unique(w: int, x1: int, y1: int, x2: int, y2: int)
    requires
        0 <= x1 < w,
        0 <= x2 < w,
        0 <= y1,
        0 <= y2,
        at_xy(w, x1, y1) == at_xy(w, x2, y2),
    ensures
        x1 == x2,
        y1 == y2,
{
    if y1 < y2 {
        assert(y1 * w + w <= y2 * w) by (nonlinear_arith)
            requires
                y1 < y2,
                0 <= w,
        ;
    } else if y2 < y1 {
        assert(y2 * w + w <= y1 * w) by (nonlinear_arith)
            requires
                y2 < y1,
                0 <= w,
        ;
    }
}

impl<'a> Frame<'a> {
    /// The buffer holds exactly `w`×`h` pixels.
    pub open spec fn wf(&self) -> bool {
        self.px@.len() == self.w * self.h
    }

    /// The pixel at (`x`, `y`).
    pub open spec fn pixel(&self, x: int, y: int) -> u32 {
        self.px@[at_xy(self.w as int, x, y)]
    }

    /// Lays `img`, stretched over device rectangle `dst` and faded by `opacity`, on the part
    /// of `dst` inside `clip`; fully transparent image pixels leave the frame as it was, and
    /// an image without pixels draws nothing.
    pub fn image_dev(&mut self, img: &Image, dst: Rect, clip: Rect, opacity: u8)
        requires
            old(self).wf(),
            img.wf(),
            within(clip, old(self).w as int, old(self).h as int),
            dst.can_intersect(clip),
            stretch_fits(dst.w as int, img.w as int),
            stretch_fits(dst.h as int, img.h as int),
        ensures
            final(self).w == old(self).w,
            final(self).h == old(self).h,
            final(self).wf(),
            forall|x: int, y: int|
                0 <= x < old(self).w && 0 <= y < old(self).h ==> #[trigger] final(self).pixel(x, y)
                    == if covers(dst, x, y) && covers(clip, x, y) && img.w > 0 && img.h > 0 {
                    drawn(img, dst, opacity, x, y, old(self).pixel(x, y))
                } else {
                    old(self).pixel(x, y)
                },
    {
        let vis = dst.intersect(clip);
        if vis.is_empty() || img.w == 0 || img.h == 0 {
            return;
        }
        let w = self.w as usize;
        let iw = img.w;
        let ih = img.h;
        let ghost fw = self.w as int;
        let ghost fh = self.h as int;
        let ghost before = self.px@;
        let n = self.px.len();
        let mut y = vis.y;
        while y < vis.bottom()
            invariant
                self.w == fw,
                self.h == fh,
                w == fw,
                iw == img.w,
                ih == img.h,
                iw >= 1,
                ih >= 1,
                img.wf(),
                self.px@.len() == before.len(),
                before.len() == fw * fh,
                n == before.len(),
                within(vis, fw, fh),
                vis.edges_fit(),
                vis == dst.intersect_spec(clip),
                stretch_fits(dst.w as int, img.w as int),
                stretch_fits(dst.h as int, img.h as int),
                !vis.empty_spec(),
                vis.y <= y <= vis.bottom_spec(),
                forall|xx: int, yy: int|
                    0 <= xx < fw && 0 <= yy < fh ==> #[trigger] self.px@[at_xy(fw, xx, yy)] == if covers(
                        vis,
                        xx,
                        yy,
                    ) && yy < y {
                        drawn(img, dst, opacity, xx, yy, before[at_xy(fw, xx, yy)])
                    } else {
                        before[at_xy(fw, xx, yy)]
                    },
            decreases vis.bottom_spec() - y,
        {
            let sy = sample_exec(y, dst.y, dst.h, ih);
            let mut x = vis.x;
            while x < vis.right()
                invariant
                    self.w == fw,
                    self.h == fh,
                    w == fw,
                    iw == img.w,
                    ih == img.h,
                    iw >= 1,
                    ih >= 1,
                    img.wf(),
                    self.px@.len() == before.len(),
                    before.len() == fw * fh,
                    n == before.len(),
                    within(vis, fw, fh),
                    vis.edges_fit(),
                    vis == dst.intersect_spec(clip),
                    stretch_fits(dst.w as int, img.w as int),
                    stretch_fits(dst.h as int, img.h as int),
                    vis.y <= y < vis.bottom_spec(),
                    vis.x <= x <= vis.right_spec(),
                    sy == sample(y as int, dst.y as int, dst.h as int, img.h as int),
                    sy < ih,
                    forall|xx: int, yy: int|
                        0 <= xx < fw && 0 <= yy < fh ==> #[trigger] self.px@[at_xy(fw, xx, yy)]
                            == if covers(vis, xx, yy) && (yy < y || (yy == y && xx < x)) {
                            drawn(img, dst, opacity, xx, yy, before[at_xy(fw, xx, yy)])
                        } else {
                            before[at_xy(fw, xx, yy)]
                        },
                decreases vis.right_spec() - x,
            {
                let sx = sample_exec(x, dst.x, dst.w, iw);
                proof {
                    lemma_index(iw as int, sx as int, sy as int, ih as int);
                    lemma_index(fw, x as int, y as int, fh);
                    assert((y as usize) * w == y * fw);
                    assert(sy * iw == sy as int * iw as int);
                }
                let p = img.px[(sy * iw + sx) as usize];
                let i = (y as usize) * w + (x as usize);
                let ghost old_px = self.px@;
                if p[3] != 0 {
                    let d = self.px[i];
                    self.px[i] = over_px(d, p, opacity);
                }
                proof {
                    assert(old_px[i as int] == before[i as int]) by {
                        lemma_index(fw, x as int, y as int, fh);
                    }
                    assert forall|xx: int, yy: int| 0 <= xx < fw && 0 <= yy < fh implies #[trigger] self.px@[at_xy(fw, xx, yy)]
                        == if covers(vis, xx, yy) && (yy < y || (yy == y && xx < x + 1)) {
                            drawn(img, dst, opacity, xx, yy, before[at_xy(fw, xx, yy)])
                        } else {
                            before[at_xy(fw, xx, yy)]
                        } by {
                        lemma_index(fw, xx, yy, fh);
                        if at_xy(fw, xx, yy) == i {
                            lemma_index_unique(fw, xx, yy, x as int, y as int);
                        }
                        assert(old_px[at_xy(fw, xx, yy)] == if covers(vis, xx, yy) && (yy < y || (yy == y && xx < x)) {
                            drawn(img, dst, opacity, xx, yy, before[at_xy(fw, xx, yy)])
                        } else {
                            before[at_xy(fw, xx, yy)]
                        });
                    }
                }
                x += 1;
            }
            y += 1;
        }
    }

    /// Fills the part of device rectangle `r` that lies inside `clip` with `color`;
    /// every other pixel keeps its value.
    pub fn fill_dev(&mut self, r: Rect, clip: Rect, color: u32)
        requires
            old(self).wf(),
            within(clip, old(self).w as int, old(self).h as int),
            r.can_intersect(clip),
        ensures
            final(self).w == old(self).w,
            final(self).h == old(self).h,
            final(self).wf(),
            forall|x: int, y: int|
                0 <= x < old(self).w && 0 <= y < old(self).h ==> #[trigger] final(self).pixel(x, y)
                    == if covers(r, x, y) && covers(clip, x, y) {
                    color
                } else {
                    old(self).pixel(x, y)
                },
    {
        let r = r.intersect(clip);
        if r.is_empty() {
            return;
        }
        let w = self.w as usize;
        let ghost fw = self.w as int;
        let ghost fh = self.h as int;
        let ghost before = self.px@;
        let n = self.px.len();
        let mut y = r.y;
        while y < r.bottom()
            invariant
                self.w == fw,
                self.h == fh,
                w == fw,
                self.px@.len() == before.len(),
                before.len() == fw * fh,
                n == before.len(),
                within(r, fw, fh),
                r.edges_fit(),
                !r.empty_spec(),
                r.y <= y <= r.bottom_spec(),
                forall|xx: int, yy: int|
                    0 <= xx < fw && 0 <= yy < fh ==> #[trigger] self.px@[at_xy(fw, xx, yy)] == if covers(
                        r,
                        xx,
                        yy,
                    ) && yy < y {
                        color
                    } else {
                        before[at_xy(fw, xx, yy)]
                    },
            decreases r.bottom_spec() - y,
        {
            let mut x = r.x;
            while x < r.right()
                invariant
                    self.w == fw,
                    self.h == fh,
                    w == fw,
                    self.px@.len() == before.len(),
                    before.len() == fw * fh,
                    n == before.len(),
                    within(r, fw, fh),
                    r.edges_fit(),
                    r.y <= y < r.bottom_spec(),
                    r.x <= x <= r.right_spec(),
                    forall|xx: int, yy: int|
                        0 <= xx < fw && 0 <= yy < fh ==> #[trigger] self.px@[at_xy(fw, xx, yy)]
                            == if covers(r, xx, yy) && (yy < y || (yy == y && xx < x)) {
                            color
                        } else {
                            before[at_xy(fw, xx, yy)]
                        },
                decreases r.right_spec() - x,
            {
                proof {
                    lemma_index(fw, x as int, y as int, fh);
                    assert((y as usize) * w == y * fw);
                }
                let i = (y as usize) * w + (x as usize);
                let ghost old_px = self.px@;
                self.px[i] = color;
                proof {
                    assert forall|xx: int, yy: int| 0 <= xx < fw && 0 <= yy < fh implies #[trigger] self.px@[at_xy(fw, xx, yy)]
                        == if covers(r, xx, yy) && (yy < y || (yy == y && xx < x + 1)) {
                            color
                        } else {
                            before[at_xy(fw, xx, yy)]
                        } by {
                        lemma_index(fw, xx, yy, fh);
                        if at_xy(fw, xx, yy) == i {
                            lemma_index_unique(fw, xx, yy, x as int, y as int);
                        }
                        assert(old_px[at_xy(fw, xx, yy)] == if covers(r, xx, yy) && (yy < y || (yy == y && xx < x)) {
                            color
                        } else {
                            before[at_xy(fw, xx, yy)]
                        });
                    }
                }
                x += 1;
            }
            y += 1;
        }
    }
}

} // verus!
